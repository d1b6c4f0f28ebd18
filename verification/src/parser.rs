//! The recursive-descent parser.
//!
//! Grammar, lowest to highest precedence: assignment, `or`, `and`,
//! equality, comparison, term, factor, unary, call, primary. Each binary
//! tier loops on its own operators, wrapping the accumulated expression as
//! the new left operand, so every tier is left-associative; `assignment`
//! is right-associative. `for` is desugared at parse time into a `while`
//! inside a synthetic block. On an error the parser records a diagnostic,
//! synchronizes to the next statement boundary and goes on, so one pass
//! can report several independent errors; the statements handed back are
//! best-effort and must only be run when `success` says no error was
//! recorded.
//!
//! The meaning of the parser is the reference parser below: one
//! specification function per production (`spec_primary` through
//! `spec_parse`), each giving the cursor after the production, the
//! diagnostics it records in order, and the tree it builds over the
//! specification shapes `ExprS`/`StmtS`. Every executable production is
//! proved to return exactly what its specification says. The contracts
//! also carry the shape invariant `well_formed_expr`, which pins each
//! node's operator to its precedence tier and bounds the tiers of its
//! children (the right child strictly below its own tier on the binary
//! tiers, which is left-associativity stated structurally).

use vstd::prelude::*;
use crate::error::{LoxResult, LoxResultV};
use crate::expr::{
    AssignExpr, BinaryExpr, CallExpr, Expr, GroupingExpr, LiteralExpr, LogicalExpr, UnaryExpr,
    VariableExpr,
};
use crate::lit::Lit;
use crate::stmt::{BlockStmt, ExpressionStmt, IfStmt, PrintStmt, Stmt, VarStmt, WhileStmt};
use crate::token::{Token, TokenV};
use crate::token_type::TokenType;

verus! {

broadcast use vstd::std_specs::vec::group_vec_axioms, vstd::seq::group_seq_axioms;

/// The precedence tier of an expression's head node: assignment 9,
/// `or` 8, `and` 7, equality 6, comparison 5, term 4, factor 3, unary 2,
/// and 1 for the postfix/primary forms.
pub open spec fn expr_tier(e: Expr) -> int {
    match e {
        Expr::Assign(_) => 9,
        Expr::Logical(l) => if l.operator.ttype == TokenType::Or {
            8
        } else {
            7
        },
        Expr::Binary(b) => match b.operator.ttype {
            TokenType::BangEqual | TokenType::EqualEqual => 6,
            TokenType::Greater | TokenType::GreaterEqual | TokenType::Less
                | TokenType::LessEqual => 5,
            TokenType::Plus | TokenType::Minus => 4,
            TokenType::Star | TokenType::Slash => 3,
            _ => 9,
        },
        Expr::Unary(_) => 2,
        _ => 1,
    }
}

/// The shape every parsed expression has: each operator belongs to its
/// tier, each left child stays within the node's own tier and each right
/// child sits strictly below it (left-associativity), prefix operands sit
/// at unary level or below, and parenthesised, assigned and argument
/// expressions are full expressions again.
pub open spec fn well_formed_expr(e: Expr) -> bool
    decreases e,
{
    match e {
        Expr::Assign(a) => well_formed_expr(*a.value) && expr_tier(*a.value) <= 9,
        Expr::Logical(l) => {
            &&& well_formed_expr(*l.left)
            &&& well_formed_expr(*l.right)
            &&& (l.operator.ttype == TokenType::Or || l.operator.ttype == TokenType::And)
            &&& (if l.operator.ttype == TokenType::Or {
                expr_tier(*l.left) <= 8 && expr_tier(*l.right) <= 7
            } else {
                expr_tier(*l.left) <= 7 && expr_tier(*l.right) <= 6
            })
        },
        Expr::Binary(b) => {
            &&& well_formed_expr(*b.left)
            &&& well_formed_expr(*b.right)
            &&& match b.operator.ttype {
                TokenType::BangEqual | TokenType::EqualEqual => expr_tier(*b.left) <= 6
                    && expr_tier(*b.right) <= 5,
                TokenType::Greater | TokenType::GreaterEqual | TokenType::Less
                    | TokenType::LessEqual => expr_tier(*b.left) <= 5 && expr_tier(*b.right) <= 4,
                TokenType::Plus | TokenType::Minus => expr_tier(*b.left) <= 4 && expr_tier(
                    *b.right,
                ) <= 3,
                TokenType::Star | TokenType::Slash => expr_tier(*b.left) <= 3 && expr_tier(
                    *b.right,
                ) <= 2,
                _ => false,
            }
        },
        Expr::Unary(u) => {
            &&& well_formed_expr(*u.right)
            &&& expr_tier(*u.right) <= 2
            &&& (u.operator.ttype == TokenType::Bang || u.operator.ttype == TokenType::Minus)
        },
        Expr::Call(c) => {
            &&& well_formed_expr(*c.callee)
            &&& expr_tier(*c.callee) <= 1
            &&& forall|i: int|
                0 <= i < c.arguments@.len() ==> well_formed_expr(#[trigger] c.arguments@[i])
                    && expr_tier(c.arguments@[i]) <= 9
        },
        Expr::Grouping(g) => well_formed_expr(*g.expression) && expr_tier(*g.expression) <= 9,
        Expr::Literal(_) => true,
        Expr::Variable(_) => true,
    }
}

/// The shape every parsed statement has: its expressions are well formed
/// full expressions, its substatements have the same shape, and no
/// function declaration is ever produced.
pub open spec fn well_formed_stmt(s: Stmt) -> bool
    decreases s,
{
    match s {
        Stmt::Block(b) => forall|i: int|
            0 <= i < b.statements@.len() ==> well_formed_stmt(#[trigger] b.statements@[i]),
        Stmt::Expression(e) => well_formed_expr(e.expression) && expr_tier(e.expression) <= 9,
        Stmt::Function(_) => false,
        Stmt::If(i) => {
            &&& well_formed_expr(i.condition)
            &&& expr_tier(i.condition) <= 9
            &&& well_formed_stmt(*i.then_branch)
            &&& match i.else_branch {
                Some(e) => well_formed_stmt(*e),
                None => true,
            }
        },
        Stmt::Print(p) => well_formed_expr(p.expression) && expr_tier(p.expression) <= 9,
        Stmt::Var(v) => match v.initializer {
            Some(e) => well_formed_expr(e) && expr_tier(e) <= 9,
            None => true,
        },
        Stmt::While(w) => {
            &&& well_formed_expr(w.condition)
            &&& expr_tier(w.condition) <= 9
            &&& well_formed_stmt(*w.body)
        },
    }
}

/// The mathematical shape of a parsed expression: the executable tree
/// with sequences for argument lists, so the reference parser below can
/// build it in specification code. Tokens are carried as they stand.
pub enum ExprS {
    Assign { name: Token, value: Box<ExprS> },
    Binary { left: Box<ExprS>, operator: Token, right: Box<ExprS> },
    Call { callee: Box<ExprS>, paren: Token, arguments: Seq<ExprS> },
    Grouping { expression: Box<ExprS> },
    Literal { value: Option<Lit> },
    Logical { left: Box<ExprS>, operator: Token, right: Box<ExprS> },
    Unary { operator: Token, right: Box<ExprS> },
    Variable { name: Token },
}

/// The mathematical shape of a parsed statement. There is no function
/// variant: the parser never yields one.
pub enum StmtS {
    Block { statements: Seq<StmtS> },
    Expression { expression: ExprS },
    If { condition: ExprS, then_branch: Box<StmtS>, else_branch: Option<Box<StmtS>> },
    Print { expression: ExprS },
    Var { name: Token, initializer: Option<ExprS> },
    While { condition: ExprS, body: Box<StmtS> },
}

/// An executable expression is exactly the specified one.
pub open spec fn expr_matches(e: Expr, s: ExprS) -> bool
    decreases e,
{
    match (e, s) {
        (Expr::Assign(a), ExprS::Assign { name, value }) => a.name == name && expr_matches(
            *a.value,
            *value,
        ),
        (Expr::Binary(b), ExprS::Binary { left, operator, right }) => {
            &&& b.operator == operator
            &&& expr_matches(*b.left, *left)
            &&& expr_matches(*b.right, *right)
        },
        (Expr::Call(c), ExprS::Call { callee, paren, arguments }) => {
            &&& c.paren == paren
            &&& expr_matches(*c.callee, *callee)
            &&& c.arguments@.len() == arguments.len()
            &&& forall|k: int|
                0 <= k < arguments.len() ==> expr_matches(
                    #[trigger] c.arguments@[k],
                    arguments[k],
                )
        },
        (Expr::Grouping(g), ExprS::Grouping { expression }) => expr_matches(
            *g.expression,
            *expression,
        ),
        (Expr::Literal(l), ExprS::Literal { value }) => l.value == value,
        (Expr::Logical(o), ExprS::Logical { left, operator, right }) => {
            &&& o.operator == operator
            &&& expr_matches(*o.left, *left)
            &&& expr_matches(*o.right, *right)
        },
        (Expr::Unary(u), ExprS::Unary { operator, right }) => u.operator == operator
            && expr_matches(*u.right, *right),
        (Expr::Variable(v), ExprS::Variable { name }) => v.name == name,
        _ => false,
    }
}

/// An executable statement is exactly the specified one.
pub open spec fn stmt_matches(st: Stmt, s: StmtS) -> bool
    decreases st,
{
    match (st, s) {
        (Stmt::Block(b), StmtS::Block { statements }) => {
            &&& b.statements@.len() == statements.len()
            &&& forall|k: int|
                0 <= k < statements.len() ==> stmt_matches(
                    #[trigger] b.statements@[k],
                    statements[k],
                )
        },
        (Stmt::Expression(e), StmtS::Expression { expression }) => expr_matches(
            e.expression,
            expression,
        ),
        (Stmt::If(i), StmtS::If { condition, then_branch, else_branch }) => {
            &&& expr_matches(i.condition, condition)
            &&& stmt_matches(*i.then_branch, *then_branch)
            &&& match (i.else_branch, else_branch) {
                (Some(e), Some(se)) => stmt_matches(*e, *se),
                (None, None) => true,
                _ => false,
            }
        },
        (Stmt::Print(p), StmtS::Print { expression }) => expr_matches(p.expression, expression),
        (Stmt::Var(v), StmtS::Var { name, initializer }) => {
            &&& v.name == name
            &&& match (v.initializer, initializer) {
                (Some(e), Some(se)) => expr_matches(e, se),
                (None, None) => true,
                _ => false,
            }
        },
        (Stmt::While(w), StmtS::While { condition, body }) => expr_matches(w.condition, condition)
            && stmt_matches(*w.body, *body),
        _ => false,
    }
}

/// An executable statement list is exactly the specified one.
pub open spec fn stmts_match(v: Seq<Stmt>, s: Seq<StmtS>) -> bool {
    v.len() == s.len() && forall|k: int|
        0 <= k < s.len() ==> stmt_matches(#[trigger] v[k], s[k])
}

/// One parsing step's meaning: where the cursor ends, the diagnostics it
/// records (in order), and the value it parses or the error it hands
/// back.
#[verifier::ext_equal]
pub struct PRes<T> {
    pub next: int,
    pub errs: Seq<LoxResultV>,
    pub res: Result<T, LoxResultV>,
}

/// The same step with earlier diagnostics in front.
pub open spec fn pres_seq<T>(pre: Seq<LoxResultV>, r: PRes<T>) -> PRes<T> {
    PRes { next: r.next, errs: pre + r.errs, res: r.res }
}

proof fn lemma_pres_seq_assoc<T>(a: Seq<LoxResultV>, b: Seq<LoxResultV>, r: PRes<T>)
    ensures
        pres_seq(a, pres_seq(b, r)) == pres_seq(a + b, r),
{
    assert(pres_seq(a, pres_seq(b, r)) =~= pres_seq(a + b, r));
}

/// The dead value for a cursor outside the token sequence; the parser
/// keeps its cursor on the sequence, so no run reaches it.
pub open spec fn pres_dead<T>() -> PRes<T> {
    PRes {
        next: 0,
        errs: Seq::empty(),
        res: Err(LoxResultV::Error { line: 0, message: Seq::empty() }),
    }
}

/// `j` clamped into `[i, n]`. The cursor only moves forward and stays on
/// the token sequence, so along every run this is `j`; it makes the
/// reference parser's recursion visibly well-founded.
pub open spec fn clamp_pos(j: int, i: int, n: int) -> int {
    if j < i {
        i
    } else if j > n {
        n
    } else {
        j
    }
}

pub open spec fn parse_err(t: Token, msg: Seq<char>) -> LoxResultV {
    LoxResultV::ParseError { token: t@, message: msg }
}

/// Consuming one token of kind `tt`, or recording a diagnostic at the
/// token found instead (the cursor does not move then).
pub open spec fn spec_consume(t: Seq<Token>, i: int, tt: TokenType, msg: Seq<char>) -> PRes<
    Token,
> {
    if !(0 <= i < t.len()) {
        pres_dead()
    } else if t[i].ttype == tt && tt != TokenType::Eof {
        PRes { next: i + 1, errs: Seq::empty(), res: Ok(t[i]) }
    } else {
        PRes { next: i, errs: seq![parse_err(t[i], msg)], res: Err(parse_err(t[i], msg)) }
    }
}

/// The operators of one left-associative binary tier: equality 6,
/// comparison 5, term 4, factor 3.
pub open spec fn tier_op(tier: int, tt: TokenType) -> bool {
    if tier == 6 {
        tt == TokenType::BangEqual || tt == TokenType::EqualEqual
    } else if tier == 5 {
        tt == TokenType::Greater || tt == TokenType::GreaterEqual || tt == TokenType::Less || tt
            == TokenType::LessEqual
    } else if tier == 4 {
        tt == TokenType::Plus || tt == TokenType::Minus
    } else {
        tt == TokenType::Slash || tt == TokenType::Star
    }
}

/// The tokens that may begin a statement, at which synchronization stops.
pub open spec fn stmt_boundary(tt: TokenType) -> bool {
    ||| tt == TokenType::Class
    ||| tt == TokenType::Fun
    ||| tt == TokenType::Var
    ||| tt == TokenType::For
    ||| tt == TokenType::If
    ||| tt == TokenType::While
    ||| tt == TokenType::Print
    ||| tt == TokenType::Return
}

/// Where synchronization lands, scanning from `j` with the offending
/// token already skipped: at the end of input, just past a semicolon, or
/// at the first statement keyword.
pub open spec fn spec_sync_walk(t: Seq<Token>, j: int) -> int
    decreases t.len() - j,
{
    if !(0 < j < t.len()) {
        j
    } else if t[j].ttype == TokenType::Eof {
        j
    } else if t[j - 1].ttype == TokenType::Semicolon {
        j
    } else if stmt_boundary(t[j].ttype) {
        j
    } else {
        spec_sync_walk(t, j + 1)
    }
}

/// Where the cursor lands after panic-mode recovery from `i`: the
/// offending token is skipped, then tokens are discarded to the next
/// statement boundary.
pub open spec fn spec_synchronize(t: Seq<Token>, i: int) -> int {
    if !(0 <= i < t.len()) {
        i
    } else if t[i].ttype == TokenType::Eof {
        i
    } else {
        spec_sync_walk(t, i + 1)
    }
}

/// The reference parser: one specification function per production, each
/// the exact meaning of its executable namesake. `primary` recognizes the
/// literal keywords, literal tokens (keeping their scanned payloads),
/// identifiers and parenthesised expressions, and fails with "Expect
/// expression." on anything else.
pub open spec fn spec_primary(t: Seq<Token>, i: int) -> PRes<ExprS>
    decreases t.len() - i, 0int, 1int,
{
    if !(0 <= i < t.len()) {
        pres_dead()
    } else {
        let c = t[i].ttype;
        if c == TokenType::False {
            PRes {
                next: i + 1,
                errs: Seq::empty(),
                res: Ok(ExprS::Literal { value: Some(Lit::Bool(false)) }),
            }
        } else if c == TokenType::True {
            PRes {
                next: i + 1,
                errs: Seq::empty(),
                res: Ok(ExprS::Literal { value: Some(Lit::Bool(true)) }),
            }
        } else if c == TokenType::Nil {
            PRes {
                next: i + 1,
                errs: Seq::empty(),
                res: Ok(ExprS::Literal { value: Some(Lit::Nil) }),
            }
        } else if c == TokenType::Number || c == TokenType::String {
            PRes {
                next: i + 1,
                errs: Seq::empty(),
                res: Ok(ExprS::Literal { value: t[i].literal }),
            }
        } else if c == TokenType::Identifier {
            PRes {
                next: i + 1,
                errs: Seq::empty(),
                res: Ok(ExprS::Variable { name: t[i] }),
            }
        } else if c == TokenType::LeftParen {
            let r = spec_expression(t, i + 1);
            match r.res {
                Ok(e) => {
                    let rc = spec_consume(
                        t,
                        clamp_pos(r.next, i + 1, t.len() as int),
                        TokenType::RightParen,
                        "Expect ')' after expression."@,
                    );
                    PRes {
                        next: rc.next,
                        errs: r.errs + rc.errs,
                        res: match rc.res {
                            Ok(_) => Ok(ExprS::Grouping { expression: Box::new(e) }),
                            Err(ev) => Err(ev),
                        },
                    }
                },
                Err(_) => r,
            }
        } else {
            let pe = parse_err(t[i], "Expect expression."@);
            PRes { next: i, errs: seq![pe], res: Err(pe) }
        }
    }
}

/// The comma-separated arguments after the first one, up to and including
/// the closing parenthesis; past 255 arguments each further one records a
/// diagnostic and parsing continues.
pub open spec fn spec_args_more(t: Seq<Token>, i: int, callee: ExprS, args: Seq<ExprS>) -> PRes<
    ExprS,
>
    decreases t.len() - i, 11int, 0int,
{
    if !(0 <= i < t.len()) {
        pres_dead()
    } else if t[i].ttype == TokenType::Comma {
        let cap = if args.len() >= 255 {
            seq![parse_err(t[i + 1], "Can't have more than 255 arguments."@)]
        } else {
            Seq::empty()
        };
        let r = spec_expression(t, i + 1);
        match r.res {
            Ok(a) => pres_seq(
                cap + r.errs,
                spec_args_more(t, clamp_pos(r.next, i + 1, t.len() as int), callee, args.push(a)),
            ),
            Err(ev) => PRes { next: r.next, errs: cap + r.errs, res: Err(ev) },
        }
    } else {
        let rc = spec_consume(t, i, TokenType::RightParen, "Expected ')' after arguments"@);
        PRes {
            next: rc.next,
            errs: rc.errs,
            res: match rc.res {
                Ok(paren) => Ok(
                    ExprS::Call { callee: Box::new(callee), paren, arguments: args },
                ),
                Err(ev) => Err(ev),
            },
        }
    }
}

/// One argument list after `(`, up to and including `)`.
pub open spec fn spec_finish_call(t: Seq<Token>, i: int, callee: ExprS) -> PRes<ExprS>
    decreases t.len() - i, 11int, 1int,
{
    if !(0 <= i < t.len()) {
        pres_dead()
    } else if t[i].ttype != TokenType::RightParen {
        let r = spec_expression(t, i);
        match r.res {
            Ok(a) => pres_seq(
                r.errs,
                spec_args_more(t, clamp_pos(r.next, i + 1, t.len() as int), callee, seq![a]),
            ),
            Err(_) => r,
        }
    } else {
        PRes {
            next: i + 1,
            errs: Seq::empty(),
            res: Ok(
                ExprS::Call {
                    callee: Box::new(callee),
                    paren: t[i],
                    arguments: Seq::empty(),
                },
            ),
        }
    }
}

/// Zero or more trailing argument lists after a primary expression.
pub open spec fn spec_call_more(t: Seq<Token>, i: int, acc: ExprS) -> PRes<ExprS>
    decreases t.len() - i, 1int, 0int,
{
    if !(0 <= i < t.len()) {
        pres_dead()
    } else if t[i].ttype == TokenType::LeftParen {
        let r = spec_finish_call(t, i + 1, acc);
        match r.res {
            Ok(e) => pres_seq(r.errs, spec_call_more(t, clamp_pos(r.next, i + 1, t.len() as int), e)),
            Err(_) => r,
        }
    } else {
        PRes { next: i, errs: Seq::empty(), res: Ok(acc) }
    }
}

pub open spec fn spec_call(t: Seq<Token>, i: int) -> PRes<ExprS>
    decreases t.len() - i, 1int, 1int,
    when 0 <= i <= t.len()
{
    let r = spec_primary(t, i);
    match r.res {
        Ok(e) => pres_seq(r.errs, spec_call_more(t, clamp_pos(r.next, i, t.len() as int), e)),
        Err(_) => r,
    }
}

/// Right-recursive prefix `!` and `-`.
pub open spec fn spec_unary(t: Seq<Token>, i: int) -> PRes<ExprS>
    decreases t.len() - i, 2int, 0int,
{
    if !(0 <= i < t.len()) {
        pres_dead()
    } else if t[i].ttype == TokenType::Bang || t[i].ttype == TokenType::Minus {
        let r = spec_unary(t, i + 1);
        match r.res {
            Ok(e) => PRes {
                next: r.next,
                errs: r.errs,
                res: Ok(ExprS::Unary { operator: t[i], right: Box::new(e) }),
            },
            Err(_) => r,
        }
    } else {
        spec_call(t, i)
    }
}

/// The operator loop of one binary tier: each operator of the tier wraps
/// the accumulated expression as the new left operand, which is exactly
/// left-associative grouping.
pub open spec fn spec_binary_more(t: Seq<Token>, i: int, acc: ExprS, tier: int) -> PRes<ExprS>
    decreases t.len() - i, tier, 0int,
    when 3 <= tier <= 6
{
    if !(0 <= i < t.len()) {
        pres_dead()
    } else if tier_op(tier, t[i].ttype) {
        let r = if tier == 3 {
            spec_unary(t, i + 1)
        } else {
            spec_binary(t, i + 1, tier - 1)
        };
        match r.res {
            Ok(e) => pres_seq(
                r.errs,
                spec_binary_more(
                    t,
                    clamp_pos(r.next, i + 1, t.len() as int),
                    ExprS::Binary {
                        left: Box::new(acc),
                        operator: t[i],
                        right: Box::new(e),
                    },
                    tier,
                ),
            ),
            Err(_) => r,
        }
    } else {
        PRes { next: i, errs: Seq::empty(), res: Ok(acc) }
    }
}

/// One binary tier: its operand level, then its operator loop.
pub open spec fn spec_binary(t: Seq<Token>, i: int, tier: int) -> PRes<ExprS>
    decreases t.len() - i, tier, 1int,
    when 3 <= tier <= 6 && 0 <= i <= t.len()
{
    let r = if tier == 3 {
        spec_unary(t, i)
    } else {
        spec_binary(t, i, tier - 1)
    };
    match r.res {
        Ok(e) => pres_seq(r.errs, spec_binary_more(t, clamp_pos(r.next, i, t.len() as int), e, tier)),
        Err(_) => r,
    }
}

/// The operator loop of one logical tier (`or` 8, `and` 7).
pub open spec fn spec_logical_more(t: Seq<Token>, i: int, acc: ExprS, tier: int) -> PRes<ExprS>
    decreases t.len() - i, tier, 0int,
    when 7 <= tier <= 8
{
    let op = if tier == 8 {
        TokenType::Or
    } else {
        TokenType::And
    };
    if !(0 <= i < t.len()) {
        pres_dead()
    } else if t[i].ttype == op {
        let r = if tier == 8 {
            spec_logical(t, i + 1, 7)
        } else {
            spec_binary(t, i + 1, 6)
        };
        match r.res {
            Ok(e) => pres_seq(
                r.errs,
                spec_logical_more(
                    t,
                    clamp_pos(r.next, i + 1, t.len() as int),
                    ExprS::Logical {
                        left: Box::new(acc),
                        operator: t[i],
                        right: Box::new(e),
                    },
                    tier,
                ),
            ),
            Err(_) => r,
        }
    } else {
        PRes { next: i, errs: Seq::empty(), res: Ok(acc) }
    }
}

pub open spec fn spec_logical(t: Seq<Token>, i: int, tier: int) -> PRes<ExprS>
    decreases t.len() - i, tier, 1int,
    when 7 <= tier <= 8 && 0 <= i <= t.len()
{
    let r = if tier == 8 {
        spec_logical(t, i, 7)
    } else {
        spec_binary(t, i, 6)
    };
    match r.res {
        Ok(e) => pres_seq(r.errs, spec_logical_more(t, clamp_pos(r.next, i, t.len() as int), e, tier)),
        Err(_) => r,
    }
}

/// Right-associative assignment: a bare variable before `=` becomes an
/// assignment node; any other left-hand side records the
/// invalid-assignment-target diagnostic and the expression comes back
/// unchanged (parsing is not aborted).
pub open spec fn spec_assignment(t: Seq<Token>, i: int) -> PRes<ExprS>
    decreases t.len() - i, 9int, 0int,
{
    let r1 = spec_logical(t, i, 8);
    match r1.res {
        Ok(e) => {
            let j = clamp_pos(r1.next, i, t.len() as int);
            if 0 <= j < t.len() && t[j].ttype == TokenType::Equal {
                let equals = t[j];
                let r2 = spec_expression(t, j + 1);
                match r2.res {
                    Ok(v) => match e {
                        ExprS::Variable { name } => PRes {
                            next: r2.next,
                            errs: r1.errs + r2.errs,
                            res: Ok(ExprS::Assign { name, value: Box::new(v) }),
                        },
                        e2 => PRes {
                            next: r2.next,
                            errs: r1.errs + r2.errs + seq![
                                parse_err(equals, "Invalid assignment target."@),
                            ],
                            res: Ok(e2),
                        },
                    },
                    Err(ev) => PRes { next: r2.next, errs: r1.errs + r2.errs, res: Err(ev) },
                }
            } else {
                r1
            }
        },
        Err(_) => r1,
    }
}

/// A full expression is an assignment.
pub open spec fn spec_expression(t: Seq<Token>, i: int) -> PRes<ExprS>
    decreases t.len() - i, 10int, 0int,
{
    spec_assignment(t, i)
}

pub open spec fn spec_print_statement(t: Seq<Token>, i: int) -> PRes<StmtS>
    decreases t.len() - i, 15int, 0int,
{
    let r = spec_expression(t, i);
    match r.res {
        Ok(e) => {
            let rc = spec_consume(
                t,
                clamp_pos(r.next, i, t.len() as int),
                TokenType::Semicolon,
                "Expected ';' after value;"@,
            );
            PRes {
                next: rc.next,
                errs: r.errs + rc.errs,
                res: match rc.res {
                    Ok(_) => Ok(StmtS::Print { expression: e }),
                    Err(ev) => Err(ev),
                },
            }
        },
        Err(ev) => PRes { next: r.next, errs: r.errs, res: Err(ev) },
    }
}

pub open spec fn spec_expression_statement(t: Seq<Token>, i: int) -> PRes<StmtS>
    decreases t.len() - i, 15int, 1int,
{
    let r = spec_expression(t, i);
    match r.res {
        Ok(e) => {
            let rc = spec_consume(
                t,
                clamp_pos(r.next, i, t.len() as int),
                TokenType::Semicolon,
                "Expected ';' after value;"@,
            );
            PRes {
                next: rc.next,
                errs: r.errs + rc.errs,
                res: match rc.res {
                    Ok(_) => Ok(StmtS::Expression { expression: e }),
                    Err(ev) => Err(ev),
                },
            }
        },
        Err(ev) => PRes { next: r.next, errs: r.errs, res: Err(ev) },
    }
}

/// A `var` declaration after the keyword: the name, an optional `=`
/// initializer, and the terminating semicolon.
pub open spec fn spec_var_declaration(t: Seq<Token>, i: int) -> PRes<StmtS>
    decreases t.len() - i, 15int, 2int,
{
    let rn = spec_consume(t, i, TokenType::Identifier, "Expect variable name."@);
    match rn.res {
        Ok(name) => {
            if 0 <= i + 1 < t.len() && t[i + 1].ttype == TokenType::Equal {
                let r = spec_expression(t, i + 2);
                match r.res {
                    Ok(e) => {
                        let rc = spec_consume(
                            t,
                            clamp_pos(r.next, i + 2, t.len() as int),
                            TokenType::Semicolon,
                            "Expected ';' after variable declaration."@,
                        );
                        PRes {
                            next: rc.next,
                            errs: r.errs + rc.errs,
                            res: match rc.res {
                                Ok(_) => Ok(StmtS::Var { name, initializer: Some(e) }),
                                Err(ev) => Err(ev),
                            },
                        }
                    },
                    Err(ev) => PRes { next: r.next, errs: r.errs, res: Err(ev) },
                }
            } else {
                let rc = spec_consume(
                    t,
                    i + 1,
                    TokenType::Semicolon,
                    "Expected ';' after variable declaration."@,
                );
                PRes {
                    next: rc.next,
                    errs: rc.errs,
                    res: match rc.res {
                        Ok(_) => Ok(StmtS::Var { name, initializer: None }),
                        Err(ev) => Err(ev),
                    },
                }
            }
        },
        Err(ev) => PRes { next: rn.next, errs: rn.errs, res: Err(ev) },
    }
}

/// The declarations of a brace block, up to and including the closing
/// brace; a failed declaration aborts the block (recovery happens one
/// level up).
pub open spec fn spec_block_more(t: Seq<Token>, i: int, acc: Seq<StmtS>) -> PRes<Seq<StmtS>>
    decreases t.len() - i, 21int, 0int,
{
    if !(0 <= i < t.len()) {
        pres_dead()
    } else if t[i].ttype == TokenType::RightBrace || t[i].ttype == TokenType::Eof {
        let rc = spec_consume(t, i, TokenType::RightBrace, "Expect '}' after block."@);
        PRes {
            next: rc.next,
            errs: rc.errs,
            res: match rc.res {
                Ok(_) => Ok(acc),
                Err(ev) => Err(ev),
            },
        }
    } else {
        let r = spec_declaration(t, i);
        match r.res {
            Ok(st) => pres_seq(
                r.errs,
                spec_block_more(t, clamp_pos(r.next, i + 1, t.len() as int), acc.push(st)),
            ),
            Err(ev) => PRes { next: r.next, errs: r.errs, res: Err(ev) },
        }
    }
}

pub open spec fn spec_if_statement(t: Seq<Token>, i: int) -> PRes<StmtS>
    decreases t.len() - i, 15int, 3int,
{
    let c1 = spec_consume(t, i, TokenType::LeftParen, "Expected '(' after if."@);
    match c1.res {
        Ok(_) => {
            let rc = spec_expression(t, i + 1);
            match rc.res {
                Ok(cond) => {
                    let c2 = spec_consume(
                        t,
                        clamp_pos(rc.next, i + 1, t.len() as int),
                        TokenType::RightParen,
                        "Expected ')' after if condition."@,
                    );
                    match c2.res {
                        Ok(_) => {
                            let rt = spec_statement(t, clamp_pos(c2.next, i + 1, t.len() as int));
                            match rt.res {
                                Ok(thn) => {
                                    let j = clamp_pos(rt.next, i + 1, t.len() as int);
                                    if 0 <= j < t.len() && t[j].ttype == TokenType::Else {
                                        let re = spec_statement(t, j + 1);
                                        match re.res {
                                            Ok(els) => PRes {
                                                next: re.next,
                                                errs: rc.errs + rt.errs + re.errs,
                                                res: Ok(
                                                    StmtS::If {
                                                        condition: cond,
                                                        then_branch: Box::new(thn),
                                                        else_branch: Some(Box::new(els)),
                                                    },
                                                ),
                                            },
                                            Err(ev) => PRes {
                                                next: re.next,
                                                errs: rc.errs + rt.errs + re.errs,
                                                res: Err(ev),
                                            },
                                        }
                                    } else {
                                        PRes {
                                            next: j,
                                            errs: rc.errs + rt.errs,
                                            res: Ok(
                                                StmtS::If {
                                                    condition: cond,
                                                    then_branch: Box::new(thn),
                                                    else_branch: None,
                                                },
                                            ),
                                        }
                                    }
                                },
                                Err(ev) => PRes {
                                    next: rt.next,
                                    errs: rc.errs + rt.errs,
                                    res: Err(ev),
                                },
                            }
                        },
                        Err(ev) => PRes {
                            next: c2.next,
                            errs: rc.errs + c2.errs,
                            res: Err(ev),
                        },
                    }
                },
                Err(ev) => PRes { next: rc.next, errs: rc.errs, res: Err(ev) },
            }
        },
        Err(ev) => PRes { next: c1.next, errs: c1.errs, res: Err(ev) },
    }
}

pub open spec fn spec_while_statement(t: Seq<Token>, i: int) -> PRes<StmtS>
    decreases t.len() - i, 15int, 4int,
{
    let c1 = spec_consume(t, i, TokenType::LeftParen, "Expect '(' after 'while'."@);
    match c1.res {
        Ok(_) => {
            let rc = spec_expression(t, i + 1);
            match rc.res {
                Ok(cond) => {
                    let c2 = spec_consume(
                        t,
                        clamp_pos(rc.next, i + 1, t.len() as int),
                        TokenType::RightParen,
                        "Expect ')' after condition."@,
                    );
                    match c2.res {
                        Ok(_) => {
                            let rb = spec_statement(t, clamp_pos(c2.next, i + 1, t.len() as int));
                            match rb.res {
                                Ok(body) => PRes {
                                    next: rb.next,
                                    errs: rc.errs + rb.errs,
                                    res: Ok(
                                        StmtS::While { condition: cond, body: Box::new(body) },
                                    ),
                                },
                                Err(ev) => PRes {
                                    next: rb.next,
                                    errs: rc.errs + rb.errs,
                                    res: Err(ev),
                                },
                            }
                        },
                        Err(ev) => PRes {
                            next: c2.next,
                            errs: rc.errs + c2.errs,
                            res: Err(ev),
                        },
                    }
                },
                Err(ev) => PRes { next: rc.next, errs: rc.errs, res: Err(ev) },
            }
        },
        Err(ev) => PRes { next: c1.next, errs: c1.errs, res: Err(ev) },
    }
}

/// What `for` desugars to, given its parsed clauses: the body wrapped
/// with the increment, inside a `while` whose omitted condition defaults
/// to literal `true`, inside a block scoping the initializer.
pub open spec fn for_desugar(
    initializer: Option<StmtS>,
    condition: Option<ExprS>,
    increment: Option<ExprS>,
    body: StmtS,
) -> StmtS {
    let body1 = match increment {
        Some(inc) => StmtS::Block {
            statements: seq![body, StmtS::Expression { expression: inc }],
        },
        None => body,
    };
    let cond = match condition {
        Some(c) => c,
        None => ExprS::Literal { value: Some(Lit::Bool(true)) },
    };
    let body2 = StmtS::While { condition: cond, body: Box::new(body1) };
    match initializer {
        Some(init) => StmtS::Block { statements: seq![init, body2] },
        None => body2,
    }
}

/// The optional initializer of a `for`: nothing after a bare `;`, a
/// `var` declaration, or an expression statement.
pub open spec fn spec_for_init(t: Seq<Token>, i: int) -> PRes<Option<StmtS>>
    decreases t.len() - i, 15int, 3int,
{
    if !(0 <= i < t.len()) {
        pres_dead()
    } else if t[i].ttype == TokenType::Semicolon {
        PRes { next: i + 1, errs: Seq::empty(), res: Ok(None) }
    } else if t[i].ttype == TokenType::Var {
        let r = spec_var_declaration(t, i + 1);
        PRes {
            next: r.next,
            errs: r.errs,
            res: match r.res {
                Ok(st) => Ok(Some(st)),
                Err(ev) => Err(ev),
            },
        }
    } else {
        let r = spec_expression_statement(t, i);
        PRes {
            next: r.next,
            errs: r.errs,
            res: match r.res {
                Ok(st) => Ok(Some(st)),
                Err(ev) => Err(ev),
            },
        }
    }
}

/// An optional expression: absent when the next token is `stop`.
pub open spec fn spec_opt_expr(t: Seq<Token>, i: int, stop: TokenType) -> PRes<Option<ExprS>>
    decreases t.len() - i, 15int, 3int,
{
    if !(0 <= i < t.len()) {
        pres_dead()
    } else if t[i].ttype == stop {
        PRes { next: i, errs: Seq::empty(), res: Ok(None) }
    } else {
        let r = spec_expression(t, i);
        PRes {
            next: r.next,
            errs: r.errs,
            res: match r.res {
                Ok(e) => Ok(Some(e)),
                Err(ev) => Err(ev),
            },
        }
    }
}

/// The three clauses between the parentheses of a `for`: the optional
/// initializer, the optional condition up to its `;`, and the optional
/// increment up to the closing `)`.
pub open spec fn spec_for_clauses(t: Seq<Token>, i: int) -> PRes<
    (Option<StmtS>, Option<ExprS>, Option<ExprS>),
>
    decreases t.len() - i, 15int, 4int,
{
    if !(0 <= i < t.len()) {
        pres_dead()
    } else {
        let ri = spec_for_init(t, i);
        match ri.res {
            Ok(initializer) => {
                let p = clamp_pos(ri.next, i, t.len() as int);
                let rcnd = spec_opt_expr(t, p, TokenType::Semicolon);
                match rcnd.res {
                    Ok(condition) => {
                        let c2 = spec_consume(
                            t,
                            clamp_pos(rcnd.next, p, t.len() as int),
                            TokenType::Semicolon,
                            "Expect ';' after  loop condition."@,
                        );
                        match c2.res {
                            Ok(_) => {
                                let q = c2.next;
                                let rinc = spec_opt_expr(t, q, TokenType::RightParen);
                                match rinc.res {
                                    Ok(increment) => {
                                        let c3 = spec_consume(
                                            t,
                                            clamp_pos(rinc.next, q, t.len() as int),
                                            TokenType::RightParen,
                                            "Expect ')' after for clauses."@,
                                        );
                                        match c3.res {
                                            Ok(_) => PRes {
                                                next: c3.next,
                                                errs: ri.errs + rcnd.errs + rinc.errs,
                                                res: Ok((initializer, condition, increment)),
                                            },
                                            Err(ev) => PRes {
                                                next: c3.next,
                                                errs: ri.errs + rcnd.errs + rinc.errs + c3.errs,
                                                res: Err(ev),
                                            },
                                        }
                                    },
                                    Err(ev) => PRes {
                                        next: rinc.next,
                                        errs: ri.errs + rcnd.errs + rinc.errs,
                                        res: Err(ev),
                                    },
                                }
                            },
                            Err(ev) => PRes {
                                next: c2.next,
                                errs: ri.errs + rcnd.errs + c2.errs,
                                res: Err(ev),
                            },
                        }
                    },
                    Err(ev) => PRes {
                        next: rcnd.next,
                        errs: ri.errs + rcnd.errs,
                        res: Err(ev),
                    },
                }
            },
            Err(ev) => PRes { next: ri.next, errs: ri.errs, res: Err(ev) },
        }
    }
}

pub open spec fn spec_for_statement(t: Seq<Token>, i: int) -> PRes<StmtS>
    decreases t.len() - i, 15int, 5int,
{
    let c1 = spec_consume(t, i, TokenType::LeftParen, "Expect '(' after 'for'."@);
    match c1.res {
        Ok(_) => {
            let rc = spec_for_clauses(t, i + 1);
            match rc.res {
                Ok((initializer, condition, increment)) => {
                    let rb = spec_statement(t, clamp_pos(rc.next, i + 1, t.len() as int));
                    match rb.res {
                        Ok(body) => PRes {
                            next: rb.next,
                            errs: rc.errs + rb.errs,
                            res: Ok(for_desugar(initializer, condition, increment, body)),
                        },
                        Err(ev) => PRes {
                            next: rb.next,
                            errs: rc.errs + rb.errs,
                            res: Err(ev),
                        },
                    }
                },
                Err(ev) => PRes { next: rc.next, errs: rc.errs, res: Err(ev) },
            }
        },
        Err(ev) => PRes { next: c1.next, errs: c1.errs, res: Err(ev) },
    }
}

/// Statement dispatch: `print`, a brace block, `if`, `while`, `for`, or
/// an expression statement.
pub open spec fn spec_statement(t: Seq<Token>, i: int) -> PRes<StmtS>
    decreases t.len() - i, 19int, 0int,
{
    if !(0 <= i < t.len()) {
        pres_dead()
    } else {
        let c = t[i].ttype;
        if c == TokenType::Print {
            spec_print_statement(t, i + 1)
        } else if c == TokenType::LeftBrace {
            let r = spec_block_more(t, i + 1, Seq::empty());
            PRes {
                next: r.next,
                errs: r.errs,
                res: match r.res {
                    Ok(ss) => Ok(StmtS::Block { statements: ss }),
                    Err(ev) => Err(ev),
                },
            }
        } else if c == TokenType::If {
            spec_if_statement(t, i + 1)
        } else if c == TokenType::While {
            spec_while_statement(t, i + 1)
        } else if c == TokenType::For {
            spec_for_statement(t, i + 1)
        } else {
            spec_expression_statement(t, i)
        }
    }
}

/// A declaration: `var` or a statement; on an error the parser
/// synchronizes to the next statement boundary before handing the error
/// back.
pub open spec fn spec_declaration(t: Seq<Token>, i: int) -> PRes<StmtS>
    decreases t.len() - i, 20int, 0int,
{
    if !(0 <= i < t.len()) {
        pres_dead()
    } else {
        let r = if t[i].ttype == TokenType::Var {
            spec_var_declaration(t, i + 1)
        } else {
            spec_statement(t, i)
        };
        match r.res {
            Ok(_) => r,
            Err(ev) => PRes {
                next: spec_synchronize(t, clamp_pos(r.next, i, t.len() as int)),
                errs: r.errs,
                res: Err(ev),
            },
        }
    }
}

/// The whole program from `i` on: the statements of the declarations
/// that parsed, in source order, and every diagnostic of the pass.
pub open spec fn spec_parse(t: Seq<Token>, i: int) -> PRes<Seq<StmtS>>
    decreases t.len() - i, 25int, 0int,
{
    if !(0 <= i < t.len()) {
        pres_dead()
    } else if t[i].ttype == TokenType::Eof {
        PRes { next: i, errs: Seq::empty(), res: Ok(Seq::empty()) }
    } else {
        let r = spec_declaration(t, i);
        let rest = spec_parse(t, clamp_pos(r.next, i + 1, t.len() as int));
        match (r.res, rest.res) {
            (Ok(st), Ok(ss)) => PRes {
                next: rest.next,
                errs: r.errs + rest.errs,
                res: Ok(seq![st] + ss),
            },
            (Err(_), Ok(ss)) => PRes { next: rest.next, errs: r.errs + rest.errs, res: Ok(ss) },
            (_, Err(ev)) => PRes { next: rest.next, errs: r.errs + rest.errs, res: Err(ev) },
        }
    }
}

/// The recursive-descent parser over a scanned token sequence.
pub struct Parser {
    tokens: Vec<Token>,
    current: usize,
    had_error: bool,
    errors: Vec<LoxResult>,
}

impl Parser {
    pub closed spec fn toks(&self) -> Seq<Token> {
        self.tokens@
    }

    pub closed spec fn cur(&self) -> int {
        self.current as int
    }

    /// The diagnostics recorded so far.
    pub closed spec fn errs(&self) -> Seq<LoxResultV> {
        self.errors@.map_values(|e: LoxResult| e@)
    }

    pub closed spec fn had_err(&self) -> bool {
        self.had_error
    }

    /// The token sequence is nonempty, ends with the end-of-input token,
    /// the cursor stays on it, and the error flag tracks the recorded
    /// diagnostics.
    pub closed spec fn wf(&self) -> bool {
        &&& self.tokens@.len() >= 1
        &&& self.tokens@.last().ttype == TokenType::Eof
        &&& self.current < self.tokens@.len()
        &&& (self.errors@.len() > 0 ==> self.had_error)
    }

    /// What every parsing step preserves: the tokens are untouched, the
    /// cursor never moves backwards, and recorded diagnostics are only
    /// ever appended.
    pub open spec fn frame(pre: Self, post: Self) -> bool {
        &&& post.wf()
        &&& post.toks() == pre.toks()
        &&& pre.cur() <= post.cur()
        &&& post.errs().len() >= pre.errs().len()
        &&& forall|i: int| 0 <= i < pre.errs().len() ==> #[trigger] post.errs()[i] == pre.errs()[i]
        &&& forall|i: int|
            pre.errs().len() <= i < post.errs().len() ==> (#[trigger] post.errs()[i]) is ParseError
        &&& post.had_err() == (pre.had_err() || post.errs().len() > pre.errs().len())
    }

    pub closed spec fn remaining(&self) -> int {
        self.toks().len() - self.cur()
    }

    pub fn new(tokens: Vec<Token>) -> (p: Parser)
        requires
            tokens@.len() >= 1,
            tokens@.last().ttype == TokenType::Eof,
        ensures
            p.wf(),
            p.toks() == tokens@,
            p.cur() == 0,
            p.errs() =~= Seq::<LoxResultV>::empty(),
            !p.had_err(),
    {
        Parser { tokens, current: 0, had_error: false, errors: Vec::new() }
    }

    /// True exactly when no diagnostic was recorded; only then may the
    /// parsed statements be handed to the interpreter.
    pub fn success(&self) -> (r: bool)
        requires
            self.wf(),
        ensures
            r == !self.had_err(),
            r ==> self.errs().len() == 0,
    {
        !self.had_error
    }

    fn is_at_end(&self) -> (r: bool)
        requires
            self.wf(),
        ensures
            r == (self.toks()[self.cur()].ttype == TokenType::Eof),
    {
        self.tokens[self.current].is(TokenType::Eof)
    }

    fn peek(&self) -> (t: Token)
        requires
            self.wf(),
        ensures
            t == self.toks()[self.cur()],
    {
        self.tokens[self.current].dup()
    }

    fn previous(&self) -> (t: Token)
        requires
            self.wf(),
            self.cur() >= 1,
        ensures
            t == self.toks()[self.cur() - 1],
    {
        self.tokens[self.current - 1].dup()
    }

    fn check(&self, tt: &TokenType) -> (r: bool)
        requires
            self.wf(),
        ensures
            r == (self.toks()[self.cur()].ttype != TokenType::Eof && self.toks()[self.cur()].ttype
                == *tt),
    {
        if self.is_at_end() {
            false
        } else {
            self.tokens[self.current].is(*tt)
        }
    }

    fn advance(&mut self) -> (t: Token)
        requires
            old(self).wf(),
            old(self).cur() >= 1 || old(self).toks()[old(self).cur()].ttype != TokenType::Eof,
        ensures
            Self::frame(*old(self), *final(self)),
            final(self).errs() == old(self).errs(),
            old(self).toks()[old(self).cur()].ttype != TokenType::Eof ==> final(self).cur() == old(self).cur() + 1,
            old(self).toks()[old(self).cur()].ttype == TokenType::Eof ==> final(self).cur() == old(self).cur(),
            t == final(self).toks()[final(self).cur() - 1],
    {
        if !self.is_at_end() {
            let n = self.tokens.len();
            proof {
                assert(self.current < n);
            }
            self.current = self.current + 1;
        }
        self.previous()
    }

    /// Consumes the next token exactly when its kind is one of `ttypes`.
    fn matches(&mut self, ttypes: &[TokenType]) -> (r: bool)
        requires
            old(self).wf(),
        ensures
            Self::frame(*old(self), *final(self)),
            final(self).errs() == old(self).errs(),
            r == (exists|i: int|
                0 <= i < ttypes@.len() && old(self).toks()[old(self).cur()].ttype == ttypes@[i]
                    && old(self).toks()[old(self).cur()].ttype != TokenType::Eof),
            r ==> final(self).cur() == old(self).cur() + 1,
            !r ==> final(self).cur() == old(self).cur(),
    {
        let n = ttypes.len();
        let mut i: usize = 0;
        while i < n
            invariant
                *self == *old(self),
                self.wf(),
                i <= n,
                n == ttypes@.len(),
                forall|k: int|
                    0 <= k < i ==> !(old(self).toks()[old(self).cur()].ttype == ttypes@[k] && old(self).toks()[old(self).cur()].ttype != TokenType::Eof),
            decreases n - i,
        {
            if self.check(&ttypes[i]) {
                let n = self.tokens.len();
                proof {
                    assert(self.current < n);
                }
                self.current = self.current + 1;
                return true;
            }
            i = i + 1;
        }
        false
    }

    /// Records a diagnostic at `t` and returns the same error for the
    /// caller to propagate or swallow.
    fn error(&mut self, t: Token, message: &str) -> (e: LoxResult)
        requires
            old(self).wf(),
        ensures
            Self::frame(*old(self), *final(self)),
            final(self).cur() == old(self).cur(),
            final(self).errs() =~= old(self).errs().push(e@),
            e@ == (LoxResultV::ParseError { token: t@, message: message@ }),
    {
        let err = LoxResult::parse_error(t.dup(), message);
        self.had_error = true;
        self.errors.push(LoxResult::parse_error(t, message));
        err
    }

    /// Consumes a token of kind `tt` or records and returns an error,
    /// exactly as `spec_consume` says.
    fn consume(&mut self, tt: TokenType, message: &str) -> (r: Result<Token, LoxResult>)
        requires
            old(self).wf(),
        ensures
            Self::frame(*old(self), *final(self)),
            ({
                let sc = spec_consume(old(self).toks(), old(self).cur(), tt, message@);
                &&& final(self).cur() == sc.next
                &&& final(self).errs() =~= old(self).errs() + sc.errs
                &&& match (r, sc.res) {
                    (Ok(t), Ok(st)) => t == st,
                    (Err(e), Err(ev)) => e@ == ev,
                    _ => false,
                }
            }),
    {
        if self.check(&tt) {
            let t = self.advance();
            proof {
                assert(self.errs() =~= old(self).errs() + Seq::<LoxResultV>::empty());
            }
            Ok(t)
        } else {
            let p = self.peek();
            let e = self.error(p, message);
            proof {
                assert(self.errs() =~= old(self).errs() + seq![
                    parse_err(old(self).toks()[old(self).cur()], message@),
                ]);
            }
            Err(e)
        }
    }

    /// Discards tokens to the next safe statement boundary, landing
    /// exactly where `spec_synchronize` says: the offending token is
    /// skipped, then tokens are discarded until the end of input, a
    /// position just past a semicolon, or a statement keyword.
    fn synchronize(&mut self)
        requires
            old(self).wf(),
        ensures
            Self::frame(*old(self), *final(self)),
            final(self).errs() == old(self).errs(),
            final(self).had_err() == old(self).had_err(),
            final(self).cur() == spec_synchronize(old(self).toks(), old(self).cur()),
            old(self).toks()[old(self).cur()].ttype != TokenType::Eof ==> final(self).cur() > old(self).cur(),
    {
        if self.is_at_end() {
            return ;
        }
        let _ = self.advance();
        while !self.is_at_end()
            invariant
                self.wf(),
                self.toks() == old(self).toks(),
                old(self).cur() < self.cur(),
                self.errs() == old(self).errs(),
                self.had_err() == old(self).had_err(),
                spec_synchronize(old(self).toks(), old(self).cur()) == spec_sync_walk(
                    self.toks(),
                    self.cur(),
                ),
            decreases self.toks().len() - self.cur(),
        {
            if self.previous().is(TokenType::Semicolon) {
                return ;
            }
            match self.peek().ttype {
                TokenType::Class | TokenType::Fun | TokenType::Var | TokenType::For
                    | TokenType::If | TokenType::While | TokenType::Print | TokenType::Return => {
                    return ;
                },
                _ => {},
            }
            let _ = self.advance();
        }
    }

    /// Consumes the next token exactly when it carries an operator of
    /// the given binary tier.
    fn match_tier_op(&mut self, tier: usize) -> (r: bool)
        requires
            old(self).wf(),
            3 <= tier <= 6,
        ensures
            Self::frame(*old(self), *final(self)),
            final(self).errs() == old(self).errs(),
            r == tier_op(tier as int, old(self).toks()[old(self).cur()].ttype),
            r ==> final(self).cur() == old(self).cur() + 1,
            !r ==> final(self).cur() == old(self).cur(),
    {
        if tier == 6 {
            self.matches(&[TokenType::BangEqual, TokenType::EqualEqual])
        } else if tier == 5 {
            self.matches(
                &[
                    TokenType::Greater,
                    TokenType::GreaterEqual,
                    TokenType::Less,
                    TokenType::LessEqual,
                ],
            )
        } else if tier == 4 {
            self.matches(&[TokenType::Plus, TokenType::Minus])
        } else {
            self.matches(&[TokenType::Slash, TokenType::Star])
        }
    }

    /// One left-associative binary tier (equality 6, comparison 5, term
    /// 4, factor 3): exactly `spec_binary` on the tokens at the cursor.
    #[verifier::spinoff_prover]
    #[verifier::rlimit(100)]
    fn binary_tier(&mut self, tier: usize) -> (r: Result<Expr, LoxResult>)
        requires
            old(self).wf(),
            3 <= tier <= 6,
        ensures
            Self::frame(*old(self), *final(self)),
            r matches Ok(e) ==> well_formed_expr(e) && expr_tier(e) <= tier as int && final(self).cur() > old(self).cur(),
            ({
                let s = spec_binary(old(self).toks(), old(self).cur(), tier as int);
                &&& final(self).cur() == s.next
                &&& final(self).errs() =~= old(self).errs() + s.errs
                &&& match (r, s.res) {
                    (Ok(e), Ok(se)) => expr_matches(e, se),
                    (Err(e), Err(ev)) => e@ == ev,
                    _ => false,
                }
            }),
        decreases old(self).remaining(), tier as int, 1int,
    {
        let ghost t0 = self.toks();
        let ghost i0 = self.cur();
        let sub = if tier == 6 {
            self.comparison()
        } else if tier == 5 {
            self.term()
        } else if tier == 4 {
            self.factor()
        } else {
            self.unary()
        };
        let ghost ssub = if tier == 3 {
            spec_unary(t0, i0)
        } else {
            spec_binary(t0, i0, tier as int - 1)
        };
        let mut expr = match sub {
            Ok(e) => e,
            Err(e) => {
                return Err(e);
            },
        };
        let ghost mut emitted = ssub.errs;
        let ghost mut sacc = ssub.res->Ok_0;
        while self.match_tier_op(tier)
            invariant
                Self::frame(*old(self), *self),
                3 <= tier <= 6,
                t0 == old(self).toks(),
                i0 == old(self).cur(),
                i0 < self.cur(),
                well_formed_expr(expr),
                expr_tier(expr) <= tier as int,
                expr_matches(expr, sacc),
                self.errs() == old(self).errs() + emitted,
                spec_binary(t0, i0, tier as int) == pres_seq(
                    emitted,
                    spec_binary_more(t0, self.cur() as int, sacc, tier as int),
                ),
            decreases self.toks().len() - self.cur(),
        {
            let operator = self.previous();
            let ghost ch = self.cur() - 1;
            let rhs = if tier == 3 {
                self.unary()
            } else {
                self.binary_tier(tier - 1)
            };
            let ghost srhs = if tier == 3 {
                spec_unary(t0, ch + 1)
            } else {
                spec_binary(t0, ch + 1, tier as int - 1)
            };
            let right = match rhs {
                Ok(e) => e,
                Err(e) => {
                    proof {
                        assert(spec_binary_more(t0, ch, sacc, tier as int) == srhs);
                        assert(self.errs() =~= old(self).errs() + (emitted + srhs.errs));
                    }
                    return Err(e);
                },
            };
            proof {
                assert(clamp_pos(srhs.next, ch + 1, t0.len() as int) == srhs.next);
            }
            expr = Expr::Binary(
                BinaryExpr { left: Box::new(expr), operator, right: Box::new(right) },
            );
            proof {
                sacc = ExprS::Binary {
                    left: Box::new(sacc),
                    operator: t0[ch],
                    right: Box::new(srhs.res->Ok_0),
                };
                emitted = emitted + srhs.errs;
                assert(self.errs() =~= old(self).errs() + emitted);
                assert(spec_binary(t0, i0, tier as int) =~= pres_seq(
                    emitted,
                    spec_binary_more(t0, self.cur() as int, sacc, tier as int),
                ));
            }
        }
        proof {
            assert(spec_binary(t0, i0, tier as int).errs =~= emitted);
            assert(self.errs() =~= old(self).errs() + spec_binary(t0, i0, tier as int).errs);
        }
        Ok(expr)
    }

    /// One short-circuiting logical tier (`or` 8, `and` 7): exactly
    /// `spec_logical` on the tokens at the cursor.
    #[verifier::spinoff_prover]
    #[verifier::rlimit(100)]
    fn logical_tier(&mut self, tier: usize) -> (r: Result<Expr, LoxResult>)
        requires
            old(self).wf(),
            7 <= tier <= 8,
        ensures
            Self::frame(*old(self), *final(self)),
            r matches Ok(e) ==> well_formed_expr(e) && expr_tier(e) <= tier as int && final(self).cur() > old(self).cur(),
            ({
                let s = spec_logical(old(self).toks(), old(self).cur(), tier as int);
                &&& final(self).cur() == s.next
                &&& final(self).errs() =~= old(self).errs() + s.errs
                &&& match (r, s.res) {
                    (Ok(e), Ok(se)) => expr_matches(e, se),
                    (Err(e), Err(ev)) => e@ == ev,
                    _ => false,
                }
            }),
        decreases old(self).remaining(), tier as int, 1int,
    {
        let ghost t0 = self.toks();
        let ghost i0 = self.cur();
        let op = if tier == 8 {
            TokenType::Or
        } else {
            TokenType::And
        };
        let sub = if tier == 8 {
            self.and()
        } else {
            self.equality()
        };
        let ghost ssub = if tier == 8 {
            spec_logical(t0, i0, 7)
        } else {
            spec_binary(t0, i0, 6)
        };
        let mut expr = match sub {
            Ok(e) => e,
            Err(e) => {
                return Err(e);
            },
        };
        let ghost mut emitted = ssub.errs;
        let ghost mut sacc = ssub.res->Ok_0;
        while self.matches(&[op])
            invariant
                Self::frame(*old(self), *self),
                7 <= tier <= 8,
                op == (if tier == 8 {
                    TokenType::Or
                } else {
                    TokenType::And
                }),
                t0 == old(self).toks(),
                i0 == old(self).cur(),
                i0 < self.cur(),
                well_formed_expr(expr),
                expr_tier(expr) <= tier as int,
                expr_matches(expr, sacc),
                self.errs() == old(self).errs() + emitted,
                spec_logical(t0, i0, tier as int) == pres_seq(
                    emitted,
                    spec_logical_more(t0, self.cur() as int, sacc, tier as int),
                ),
            decreases self.toks().len() - self.cur(),
        {
            let operator = self.previous();
            let ghost ch = self.cur() - 1;
            let rhs = if tier == 8 {
                self.logical_tier(7)
            } else {
                self.binary_tier(6)
            };
            let ghost srhs = if tier == 8 {
                spec_logical(t0, ch + 1, 7)
            } else {
                spec_binary(t0, ch + 1, 6)
            };
            let right = match rhs {
                Ok(e) => e,
                Err(e) => {
                    proof {
                        assert(spec_logical_more(t0, ch, sacc, tier as int) == srhs);
                        assert(self.errs() =~= old(self).errs() + (emitted + srhs.errs));
                    }
                    return Err(e);
                },
            };
            proof {
                assert(clamp_pos(srhs.next, ch + 1, t0.len() as int) == srhs.next);
            }
            expr = Expr::Logical(
                LogicalExpr { left: Box::new(expr), operator, right: Box::new(right) },
            );
            proof {
                sacc = ExprS::Logical {
                    left: Box::new(sacc),
                    operator: t0[ch],
                    right: Box::new(srhs.res->Ok_0),
                };
                emitted = emitted + srhs.errs;
                assert(self.errs() =~= old(self).errs() + emitted);
                assert(spec_logical(t0, i0, tier as int) =~= pres_seq(
                    emitted,
                    spec_logical_more(t0, self.cur() as int, sacc, tier as int),
                ));
            }
        }
        proof {
            assert(spec_logical(t0, i0, tier as int).errs =~= emitted);
            assert(self.errs() =~= old(self).errs() + spec_logical(t0, i0, tier as int).errs);
        }
        Ok(expr)
    }

    /// Parses one full expression (the assignment level): exactly
    /// `spec_expression`.
    fn expression(&mut self) -> (r: Result<Expr, LoxResult>)
        requires
            old(self).wf(),
        ensures
            Self::frame(*old(self), *final(self)),
            r matches Ok(e) ==> well_formed_expr(e) && expr_tier(e) <= 9 && final(self).cur()
                > old(self).cur(),
            ({
                let s = spec_expression(old(self).toks(), old(self).cur());
                &&& final(self).cur() == s.next
                &&& final(self).errs() =~= old(self).errs() + s.errs
                &&& match (r, s.res) {
                    (Ok(e), Ok(se)) => expr_matches(e, se),
                    (Err(e), Err(ev)) => e@ == ev,
                    _ => false,
                }
            }),
        decreases old(self).remaining(), 10int, 0int,
    {
        self.assignment()
    }

    /// Right-associative assignment: exactly `spec_assignment` — a bare
    /// variable before `=` becomes an assignment node; any other
    /// left-hand side records the invalid-assignment-target diagnostic
    /// and the expression comes back unchanged.
    #[verifier::spinoff_prover]
    #[verifier::rlimit(100)]
    fn assignment(&mut self) -> (r: Result<Expr, LoxResult>)
        requires
            old(self).wf(),
        ensures
            Self::frame(*old(self), *final(self)),
            r matches Ok(e) ==> well_formed_expr(e) && expr_tier(e) <= 9 && final(self).cur()
                > old(self).cur(),
            ({
                let s = spec_assignment(old(self).toks(), old(self).cur());
                &&& final(self).cur() == s.next
                &&& final(self).errs() =~= old(self).errs() + s.errs
                &&& match (r, s.res) {
                    (Ok(e), Ok(se)) => expr_matches(e, se),
                    (Err(e), Err(ev)) => e@ == ev,
                    _ => false,
                }
            }),
        decreases old(self).remaining(), 9int, 0int,
    {
        let ghost t0 = self.toks();
        let ghost i0 = self.cur();
        let expr = match self.or() {
            Ok(e) => e,
            Err(e) => {
                return Err(e);
            },
        };
        let ghost s1 = spec_logical(t0, i0, 8);
        proof {
            assert(clamp_pos(s1.next, i0, t0.len() as int) == s1.next);
        }
        if self.matches(&[TokenType::Equal]) {
            let equals = self.previous();
            let ghost jh = self.cur() - 1;
            let value = match self.expression() {
                Ok(v) => v,
                Err(e) => {
                    proof {
                        let s2 = spec_expression(t0, jh + 1);
                        assert(self.errs() =~= old(self).errs() + (s1.errs + s2.errs));
                    }
                    return Err(e);
                },
            };
            let ghost s2 = spec_expression(t0, jh + 1);
            match expr {
                Expr::Variable(v) => {
                    proof {
                        assert(self.errs() =~= old(self).errs() + (s1.errs + s2.errs));
                    }
                    return Ok(
                        Expr::Assign(AssignExpr { name: v.name, value: Box::new(value) }),
                    );
                },
                e2 => {
                    let _ = self.error(equals, "Invalid assignment target.");
                    proof {
                        assert(self.errs() =~= old(self).errs() + (s1.errs + s2.errs + seq![
                            parse_err(t0[jh], "Invalid assignment target."@),
                        ]));
                    }
                    return Ok(e2);
                },
            }
        }
        proof {
            assert(self.errs() =~= old(self).errs() + s1.errs);
        }
        Ok(expr)
    }

    fn or(&mut self) -> (r: Result<Expr, LoxResult>)
        requires
            old(self).wf(),
        ensures
            Self::frame(*old(self), *final(self)),
            r matches Ok(e) ==> well_formed_expr(e) && expr_tier(e) <= 8 && final(self).cur()
                > old(self).cur(),
            ({
                let s = spec_logical(old(self).toks(), old(self).cur(), 8);
                &&& final(self).cur() == s.next
                &&& final(self).errs() =~= old(self).errs() + s.errs
                &&& match (r, s.res) {
                    (Ok(e), Ok(se)) => expr_matches(e, se),
                    (Err(e), Err(ev)) => e@ == ev,
                    _ => false,
                }
            }),
        decreases old(self).remaining(), 8int, 2int,
    {
        self.logical_tier(8)
    }

    fn and(&mut self) -> (r: Result<Expr, LoxResult>)
        requires
            old(self).wf(),
        ensures
            Self::frame(*old(self), *final(self)),
            r matches Ok(e) ==> well_formed_expr(e) && expr_tier(e) <= 7 && final(self).cur()
                > old(self).cur(),
            ({
                let s = spec_logical(old(self).toks(), old(self).cur(), 7);
                &&& final(self).cur() == s.next
                &&& final(self).errs() =~= old(self).errs() + s.errs
                &&& match (r, s.res) {
                    (Ok(e), Ok(se)) => expr_matches(e, se),
                    (Err(e), Err(ev)) => e@ == ev,
                    _ => false,
                }
            }),
        decreases old(self).remaining(), 7int, 2int,
    {
        self.logical_tier(7)
    }

    fn equality(&mut self) -> (r: Result<Expr, LoxResult>)
        requires
            old(self).wf(),
        ensures
            Self::frame(*old(self), *final(self)),
            r matches Ok(e) ==> well_formed_expr(e) && expr_tier(e) <= 6 && final(self).cur()
                > old(self).cur(),
            ({
                let s = spec_binary(old(self).toks(), old(self).cur(), 6);
                &&& final(self).cur() == s.next
                &&& final(self).errs() =~= old(self).errs() + s.errs
                &&& match (r, s.res) {
                    (Ok(e), Ok(se)) => expr_matches(e, se),
                    (Err(e), Err(ev)) => e@ == ev,
                    _ => false,
                }
            }),
        decreases old(self).remaining(), 6int, 2int,
    {
        self.binary_tier(6)
    }

    fn comparison(&mut self) -> (r: Result<Expr, LoxResult>)
        requires
            old(self).wf(),
        ensures
            Self::frame(*old(self), *final(self)),
            r matches Ok(e) ==> well_formed_expr(e) && expr_tier(e) <= 5 && final(self).cur()
                > old(self).cur(),
            ({
                let s = spec_binary(old(self).toks(), old(self).cur(), 5);
                &&& final(self).cur() == s.next
                &&& final(self).errs() =~= old(self).errs() + s.errs
                &&& match (r, s.res) {
                    (Ok(e), Ok(se)) => expr_matches(e, se),
                    (Err(e), Err(ev)) => e@ == ev,
                    _ => false,
                }
            }),
        decreases old(self).remaining(), 5int, 2int,
    {
        self.binary_tier(5)
    }

    fn term(&mut self) -> (r: Result<Expr, LoxResult>)
        requires
            old(self).wf(),
        ensures
            Self::frame(*old(self), *final(self)),
            r matches Ok(e) ==> well_formed_expr(e) && expr_tier(e) <= 4 && final(self).cur()
                > old(self).cur(),
            ({
                let s = spec_binary(old(self).toks(), old(self).cur(), 4);
                &&& final(self).cur() == s.next
                &&& final(self).errs() =~= old(self).errs() + s.errs
                &&& match (r, s.res) {
                    (Ok(e), Ok(se)) => expr_matches(e, se),
                    (Err(e), Err(ev)) => e@ == ev,
                    _ => false,
                }
            }),
        decreases old(self).remaining(), 4int, 2int,
    {
        self.binary_tier(4)
    }

    fn factor(&mut self) -> (r: Result<Expr, LoxResult>)
        requires
            old(self).wf(),
        ensures
            Self::frame(*old(self), *final(self)),
            r matches Ok(e) ==> well_formed_expr(e) && expr_tier(e) <= 3 && final(self).cur()
                > old(self).cur(),
            ({
                let s = spec_binary(old(self).toks(), old(self).cur(), 3);
                &&& final(self).cur() == s.next
                &&& final(self).errs() =~= old(self).errs() + s.errs
                &&& match (r, s.res) {
                    (Ok(e), Ok(se)) => expr_matches(e, se),
                    (Err(e), Err(ev)) => e@ == ev,
                    _ => false,
                }
            }),
        decreases old(self).remaining(), 3int, 2int,
    {
        self.binary_tier(3)
    }

    /// Right-recursive prefix `!` and `-`: exactly `spec_unary`.
    #[verifier::spinoff_prover]
    #[verifier::rlimit(100)]
    fn unary(&mut self) -> (r: Result<Expr, LoxResult>)
        requires
            old(self).wf(),
        ensures
            Self::frame(*old(self), *final(self)),
            r matches Ok(e) ==> well_formed_expr(e) && expr_tier(e) <= 2 && final(self).cur()
                > old(self).cur(),
            ({
                let s = spec_unary(old(self).toks(), old(self).cur());
                &&& final(self).cur() == s.next
                &&& final(self).errs() =~= old(self).errs() + s.errs
                &&& match (r, s.res) {
                    (Ok(e), Ok(se)) => expr_matches(e, se),
                    (Err(e), Err(ev)) => e@ == ev,
                    _ => false,
                }
            }),
        decreases old(self).remaining(), 2int, 1int,
    {
        if self.matches(&[TokenType::Bang, TokenType::Minus]) {
            let operator = self.previous();
            match self.unary() {
                Ok(right) => {
                    return Ok(Expr::Unary(UnaryExpr { operator, right: Box::new(right) }));
                },
                Err(e) => {
                    return Err(e);
                },
            }
        }
        self.call()
    }

    /// A primary expression followed by any number of argument lists:
    /// exactly `spec_call`.
    #[verifier::spinoff_prover]
    #[verifier::rlimit(100)]
    fn call(&mut self) -> (r: Result<Expr, LoxResult>)
        requires
            old(self).wf(),
        ensures
            Self::frame(*old(self), *final(self)),
            r matches Ok(e) ==> well_formed_expr(e) && expr_tier(e) <= 1 && final(self).cur()
                > old(self).cur(),
            ({
                let s = spec_call(old(self).toks(), old(self).cur());
                &&& final(self).cur() == s.next
                &&& final(self).errs() =~= old(self).errs() + s.errs
                &&& match (r, s.res) {
                    (Ok(e), Ok(se)) => expr_matches(e, se),
                    (Err(e), Err(ev)) => e@ == ev,
                    _ => false,
                }
            }),
        decreases old(self).remaining(), 1int, 1int,
    {
        let ghost t0 = self.toks();
        let ghost i0 = self.cur();
        let mut expr = match self.primary() {
            Ok(e) => e,
            Err(e) => {
                return Err(e);
            },
        };
        let ghost sp = spec_primary(t0, i0);
        let ghost mut emitted = sp.errs;
        let ghost mut sacc = sp.res->Ok_0;
        proof {
            assert(clamp_pos(sp.next, i0, t0.len() as int) == sp.next);
        }
        while self.matches(&[TokenType::LeftParen])
            invariant
                Self::frame(*old(self), *self),
                t0 == old(self).toks(),
                i0 == old(self).cur(),
                i0 < self.cur(),
                well_formed_expr(expr),
                expr_tier(expr) <= 1,
                expr_matches(expr, sacc),
                self.errs() == old(self).errs() + emitted,
                spec_call(t0, i0) == pres_seq(
                    emitted,
                    spec_call_more(t0, self.cur() as int, sacc),
                ),
            decreases self.toks().len() - self.cur(),
        {
            let ghost ch = self.cur() - 1;
            let ghost sfc = spec_finish_call(t0, ch + 1, sacc);
            let fc = self.finish_call(expr, Ghost(sacc));
            match fc {
                Ok(e2) => {
                    proof {
                        assert(clamp_pos(sfc.next, ch + 1, t0.len() as int) == sfc.next);
                        assert(spec_call_more(t0, ch, sacc) == pres_seq(
                            sfc.errs,
                            spec_call_more(t0, sfc.next, sfc.res->Ok_0),
                        ));
                        lemma_pres_seq_assoc(
                            emitted,
                            sfc.errs,
                            spec_call_more(t0, sfc.next, sfc.res->Ok_0),
                        );
                        emitted = emitted + sfc.errs;
                        sacc = sfc.res->Ok_0;
                        assert(self.errs() =~= old(self).errs() + emitted);
                        assert(spec_call(t0, i0) == pres_seq(
                            emitted,
                            spec_call_more(t0, self.cur() as int, sacc),
                        ));
                    }
                    expr = e2;
                },
                Err(e) => {
                    proof {
                        assert(spec_call_more(t0, ch, sacc) == sfc);
                        assert(self.errs() =~= old(self).errs() + (emitted + sfc.errs));
                    }
                    return Err(e);
                },
            }
        }
        proof {
            assert(spec_call(t0, i0).errs =~= emitted);
            assert(self.errs() =~= old(self).errs() + spec_call(t0, i0).errs);
        }
        Ok(expr)
    }

    /// One comma-separated argument list after `(`, up to and including
    /// `)`: exactly `spec_finish_call` for the given callee. Past 255
    /// arguments each further one records a diagnostic and parsing
    /// continues.
    #[verifier::spinoff_prover]
    #[verifier::rlimit(100)]
    fn finish_call(&mut self, callee: Expr, Ghost(scallee): Ghost<ExprS>) -> (r: Result<
        Expr,
        LoxResult,
    >)
        requires
            old(self).wf(),
            well_formed_expr(callee),
            expr_tier(callee) <= 1,
            expr_matches(callee, scallee),
        ensures
            Self::frame(*old(self), *final(self)),
            r matches Ok(e) ==> well_formed_expr(e) && expr_tier(e) <= 1,
            ({
                let s = spec_finish_call(old(self).toks(), old(self).cur(), scallee);
                &&& final(self).cur() == s.next
                &&& final(self).errs() =~= old(self).errs() + s.errs
                &&& match (r, s.res) {
                    (Ok(e), Ok(se)) => expr_matches(e, se),
                    (Err(e), Err(ev)) => e@ == ev,
                    _ => false,
                }
            }),
        decreases old(self).remaining(), 11int, 1int,
    {
        let ghost t0 = self.toks();
        let ghost i0 = self.cur();
        let mut arguments: Vec<Expr> = Vec::new();
        let ghost mut sargs: Seq<ExprS> = Seq::empty();
        let ghost mut emitted: Seq<LoxResultV> = Seq::empty();
        if !self.check(&TokenType::RightParen) {
            let first = match self.expression() {
                Ok(e) => e,
                Err(e) => {
                    return Err(e);
                },
            };
            let ghost s1 = spec_expression(t0, i0);
            arguments.push(first);
            proof {
                sargs = seq![s1.res->Ok_0];
                emitted = s1.errs;
                assert(clamp_pos(s1.next, i0 + 1, t0.len() as int) == s1.next);
                assert(forall|k: int|
                    0 <= k < sargs.len() ==> expr_matches(
                        #[trigger] arguments@[k],
                        sargs[k],
                    ));
            }
            while self.matches(&[TokenType::Comma])
                invariant
                    Self::frame(*old(self), *self),
                    t0 == old(self).toks(),
                    i0 == old(self).cur(),
                    i0 < self.cur(),
                    arguments@.len() == sargs.len(),
                    forall|k: int|
                        0 <= k < sargs.len() ==> expr_matches(
                            #[trigger] arguments@[k],
                            sargs[k],
                        ),
                    forall|k: int|
                        0 <= k < arguments@.len() ==> well_formed_expr(
                            #[trigger] arguments@[k],
                        ) && expr_tier(arguments@[k]) <= 9,
                    self.errs() == old(self).errs() + emitted,
                    spec_finish_call(t0, i0, scallee) == pres_seq(
                        emitted,
                        spec_args_more(t0, self.cur() as int, scallee, sargs),
                    ),
                decreases self.toks().len() - self.cur(),
            {
                let ghost ch = self.cur() - 1;
                if arguments.len() >= 255 {
                    let p = self.peek();
                    let _ = self.error(p, "Can't have more than 255 arguments.");
                    let ghost cap = seq![
                        parse_err(t0[ch + 1], "Can't have more than 255 arguments."@),
                    ];
                    let ghost se = spec_expression(t0, ch + 1);
                    let a = match self.expression() {
                        Ok(e) => e,
                        Err(e) => {
                            proof {
                                assert(self.errs() =~= old(self).errs() + (emitted + (cap
                                    + se.errs)));
                            }
                            return Err(e);
                        },
                    };
                    arguments.push(a);
                    proof {
                        assert(clamp_pos(se.next, ch + 2, t0.len() as int) == se.next);
                        emitted = emitted + (cap + se.errs);
                        sargs = sargs.push(se.res->Ok_0);
                        assert(self.errs() =~= old(self).errs() + emitted);
                        assert(spec_finish_call(t0, i0, scallee) =~= pres_seq(
                            emitted,
                            spec_args_more(t0, self.cur() as int, scallee, sargs),
                        ));
                    }
                } else {
                    let ghost se = spec_expression(t0, ch + 1);
                    let a = match self.expression() {
                        Ok(e) => e,
                        Err(e) => {
                            proof {
                                assert(Seq::<LoxResultV>::empty() + se.errs =~= se.errs);
                                assert(self.errs() =~= old(self).errs() + (emitted + se.errs));
                            }
                            return Err(e);
                        },
                    };
                    arguments.push(a);
                    proof {
                        assert(clamp_pos(se.next, ch + 2, t0.len() as int) == se.next);
                        assert(Seq::<LoxResultV>::empty() + se.errs =~= se.errs);
                        emitted = emitted + se.errs;
                        sargs = sargs.push(se.res->Ok_0);
                        assert(self.errs() =~= old(self).errs() + emitted);
                        assert(spec_finish_call(t0, i0, scallee) =~= pres_seq(
                            emitted,
                            spec_args_more(t0, self.cur() as int, scallee, sargs),
                        ));
                    }
                }
            }
            let ghost jr = self.cur();
            match self.consume(TokenType::RightParen, "Expected ')' after arguments") {
                Ok(paren) => {
                    proof {
                        assert(self.errs() =~= old(self).errs() + (emitted
                            + Seq::<LoxResultV>::empty()));
                        assert(spec_finish_call(t0, i0, scallee).errs =~= emitted);
                    }
                    let ghost se_call = ExprS::Call {
                        callee: Box::new(scallee),
                        paren: t0[jr],
                        arguments: sargs,
                    };
                    let res = Expr::Call(
                        CallExpr { callee: Box::new(callee), paren, arguments },
                    );
                    proof {
                        assert(expr_matches(res, se_call));
                    }
                    Ok(res)
                },
                Err(e) => {
                    proof {
                        assert(self.errs() =~= old(self).errs() + (emitted + seq![
                            parse_err(t0[jr], "Expected ')' after arguments"@),
                        ]));
                    }
                    Err(e)
                },
            }
        } else {
            let paren = match self.consume(TokenType::RightParen, "Expected ')' after arguments") {
                Ok(p) => p,
                Err(e) => {
                    return Err(e);
                },
            };
            let res = Expr::Call(CallExpr { callee: Box::new(callee), paren, arguments });
            let ghost se_call = ExprS::Call {
                callee: Box::new(scallee),
                paren: t0[i0],
                arguments: Seq::empty(),
            };
            proof {
                assert(self.errs() =~= old(self).errs() + Seq::<LoxResultV>::empty());
                assert(expr_matches(res, se_call));
            }
            Ok(res)
        }
    }

    /// A primary expression: the literal keywords, literal tokens
    /// (keeping their scanned payloads), identifiers and parenthesised
    /// expressions — exactly `spec_primary`, which also pins when this
    /// fails ("Expect expression.") and that every primary-start token
    /// succeeds at the leaf level.
    #[verifier::spinoff_prover]
    #[verifier::rlimit(100)]
    fn primary(&mut self) -> (r: Result<Expr, LoxResult>)
        requires
            old(self).wf(),
        ensures
            Self::frame(*old(self), *final(self)),
            r matches Ok(e) ==> well_formed_expr(e) && expr_tier(e) <= 1 && final(self).cur()
                > old(self).cur(),
            ({
                let s = spec_primary(old(self).toks(), old(self).cur());
                &&& final(self).cur() == s.next
                &&& final(self).errs() =~= old(self).errs() + s.errs
                &&& match (r, s.res) {
                    (Ok(e), Ok(se)) => expr_matches(e, se),
                    (Err(e), Err(ev)) => e@ == ev,
                    _ => false,
                }
            }),
        decreases old(self).remaining(), 0int, 1int,
    {
        let ghost t0 = self.toks();
        let ghost i0 = self.cur();
        if self.matches(&[TokenType::False]) {
            return Ok(Expr::Literal(LiteralExpr { value: Some(Lit::Bool(false)) }));
        }
        if self.matches(&[TokenType::True]) {
            return Ok(Expr::Literal(LiteralExpr { value: Some(Lit::Bool(true)) }));
        }
        if self.matches(&[TokenType::Nil]) {
            return Ok(Expr::Literal(LiteralExpr { value: Some(Lit::Nil) }));
        }
        if self.matches(&[TokenType::Number, TokenType::String]) {
            let t = self.previous();
            return Ok(Expr::Literal(LiteralExpr { value: t.literal }));
        }
        if self.matches(&[TokenType::Identifier]) {
            return Ok(Expr::Variable(VariableExpr { name: self.previous() }));
        }
        if self.matches(&[TokenType::LeftParen]) {
            let ghost se = spec_expression(t0, i0 + 1);
            let inner = match self.expression() {
                Ok(e) => e,
                Err(e) => {
                    return Err(e);
                },
            };
            proof {
                assert(clamp_pos(se.next, i0 + 1, t0.len() as int) == se.next);
            }
            let ghost jr = self.cur();
            match self.consume(TokenType::RightParen, "Expect ')' after expression.") {
                Ok(_) => {
                    proof {
                        assert(self.errs() =~= old(self).errs() + (se.errs
                            + Seq::<LoxResultV>::empty()));
                    }
                    return Ok(Expr::Grouping(GroupingExpr { expression: Box::new(inner) }));
                },
                Err(e) => {
                    proof {
                        assert(self.errs() =~= old(self).errs() + (se.errs + seq![
                            parse_err(t0[jr], "Expect ')' after expression."@),
                        ]));
                    }
                    return Err(e);
                },
            }
        }
        let p = self.peek();
        let e = self.error(p, "Expect expression.");
        proof {
            assert(self.errs() =~= old(self).errs() + seq![
                parse_err(t0[i0], "Expect expression."@),
            ]);
        }
        Err(e)
    }

    /// A `var` declaration or a statement; on an error the parser
    /// records the diagnostic, synchronizes to the next statement
    /// boundary and hands the error back — exactly `spec_declaration`.
    #[verifier::spinoff_prover]
    #[verifier::rlimit(100)]
    fn declaration(&mut self) -> (r: Result<Stmt, LoxResult>)
        requires
            old(self).wf(),
        ensures
            Self::frame(*old(self), *final(self)),
            r matches Ok(st) ==> well_formed_stmt(st) && final(self).cur() > old(self).cur(),
            r is Err ==> final(self).cur() > old(self).cur() || old(self).toks()[old(
                self,
            ).cur()].ttype == TokenType::Eof,
            ({
                let s = spec_declaration(old(self).toks(), old(self).cur());
                &&& final(self).cur() == s.next
                &&& final(self).errs() =~= old(self).errs() + s.errs
                &&& match (r, s.res) {
                    (Ok(st), Ok(ss)) => stmt_matches(st, ss),
                    (Err(e), Err(ev)) => e@ == ev,
                    _ => false,
                }
            }),
        decreases old(self).remaining(), 20int,
    {
        let ghost t0 = self.toks();
        let ghost i0 = self.cur();
        let result = if self.matches(&[TokenType::Var]) {
            self.var_declaration()
        } else {
            self.statement()
        };
        match result {
            Ok(st) => Ok(st),
            Err(e) => {
                proof {
                    let sr = if t0[i0].ttype == TokenType::Var {
                        spec_var_declaration(t0, i0 + 1)
                    } else {
                        spec_statement(t0, i0)
                    };
                    assert(clamp_pos(sr.next, i0, t0.len() as int) == sr.next);
                }
                self.synchronize();
                Err(e)
            },
        }
    }

    /// Statement dispatch (`print`, a block, `if`, `while`, `for`, or an
    /// expression statement): exactly `spec_statement`.
    #[verifier::spinoff_prover]
    #[verifier::rlimit(100)]
    fn statement(&mut self) -> (r: Result<Stmt, LoxResult>)
        requires
            old(self).wf(),
        ensures
            Self::frame(*old(self), *final(self)),
            r matches Ok(st) ==> well_formed_stmt(st) && final(self).cur() > old(self).cur(),
            ({
                let s = spec_statement(old(self).toks(), old(self).cur());
                &&& final(self).cur() == s.next
                &&& final(self).errs() =~= old(self).errs() + s.errs
                &&& match (r, s.res) {
                    (Ok(st), Ok(ss)) => stmt_matches(st, ss),
                    (Err(e), Err(ev)) => e@ == ev,
                    _ => false,
                }
            }),
        decreases old(self).remaining(), 19int,
    {
        let ghost t0 = self.toks();
        let ghost i0 = self.cur();
        if self.matches(&[TokenType::Print]) {
            let r = self.print_statement();
            proof {
                assert(spec_statement(t0, i0) == spec_print_statement(t0, i0 + 1));
            }
            return r;
        }
        if self.matches(&[TokenType::LeftBrace]) {
            let ghost sb = spec_block_more(t0, i0 + 1, Seq::empty());
            match self.block() {
                Ok(statements) => {
                    let res = Stmt::Block(BlockStmt { statements });
                    proof {
                        assert(spec_statement(t0, i0).res matches Ok(ss) && stmt_matches(
                            res,
                            ss,
                        ));
                    }
                    return Ok(res);
                },
                Err(e) => {
                    proof {
                        assert(spec_statement(t0, i0).res matches Err(ev) && e@ == ev);
                    }
                    return Err(e);
                },
            }
        }
        if self.matches(&[TokenType::If]) {
            let r = self.if_statement();
            proof {
                assert(spec_statement(t0, i0) == spec_if_statement(t0, i0 + 1));
            }
            return r;
        }
        if self.matches(&[TokenType::While]) {
            let r = self.while_statement();
            proof {
                assert(spec_statement(t0, i0) == spec_while_statement(t0, i0 + 1));
            }
            return r;
        }
        if self.matches(&[TokenType::For]) {
            let r = self.for_statement();
            proof {
                assert(spec_statement(t0, i0) == spec_for_statement(t0, i0 + 1));
            }
            return r;
        }
        let r = self.expression_statement();
        proof {
            assert(spec_statement(t0, i0) == spec_expression_statement(t0, i0));
        }
        r
    }

    #[verifier::spinoff_prover]
    #[verifier::rlimit(100)]
    fn print_statement(&mut self) -> (r: Result<Stmt, LoxResult>)
        requires
            old(self).wf(),
        ensures
            Self::frame(*old(self), *final(self)),
            r matches Ok(st) ==> well_formed_stmt(st) && st is Print,
            ({
                let s = spec_print_statement(old(self).toks(), old(self).cur());
                &&& final(self).cur() == s.next
                &&& final(self).errs() =~= old(self).errs() + s.errs
                &&& match (r, s.res) {
                    (Ok(st), Ok(ss)) => stmt_matches(st, ss),
                    (Err(e), Err(ev)) => e@ == ev,
                    _ => false,
                }
            }),
        decreases old(self).remaining(), 15int,
    {
        let ghost t0 = self.toks();
        let ghost i0 = self.cur();
        let value = match self.expression() {
            Ok(v) => v,
            Err(e) => {
                return Err(e);
            },
        };
        let ghost se = spec_expression(t0, i0);
        proof {
            assert(clamp_pos(se.next, i0, t0.len() as int) == se.next);
        }
        let ghost jr = self.cur();
        match self.consume(TokenType::Semicolon, "Expected ';' after value;") {
            Ok(_) => {
                proof {
                    assert(self.errs() =~= old(self).errs() + (se.errs
                        + Seq::<LoxResultV>::empty()));
                }
                Ok(Stmt::Print(PrintStmt { expression: value }))
            },
            Err(e) => {
                proof {
                    assert(self.errs() =~= old(self).errs() + (se.errs + seq![
                        parse_err(t0[jr], "Expected ';' after value;"@),
                    ]));
                }
                Err(e)
            },
        }
    }

    #[verifier::spinoff_prover]
    #[verifier::rlimit(100)]
    fn expression_statement(&mut self) -> (r: Result<Stmt, LoxResult>)
        requires
            old(self).wf(),
        ensures
            Self::frame(*old(self), *final(self)),
            r matches Ok(st) ==> well_formed_stmt(st) && st is Expression && final(self).cur()
                > old(self).cur(),
            ({
                let s = spec_expression_statement(old(self).toks(), old(self).cur());
                &&& final(self).cur() == s.next
                &&& final(self).errs() =~= old(self).errs() + s.errs
                &&& match (r, s.res) {
                    (Ok(st), Ok(ss)) => stmt_matches(st, ss),
                    (Err(e), Err(ev)) => e@ == ev,
                    _ => false,
                }
            }),
        decreases old(self).remaining(), 15int,
    {
        let ghost t0 = self.toks();
        let ghost i0 = self.cur();
        let value = match self.expression() {
            Ok(v) => v,
            Err(e) => {
                return Err(e);
            },
        };
        let ghost se = spec_expression(t0, i0);
        proof {
            assert(clamp_pos(se.next, i0, t0.len() as int) == se.next);
        }
        let ghost jr = self.cur();
        match self.consume(TokenType::Semicolon, "Expected ';' after value;") {
            Ok(_) => {
                proof {
                    assert(self.errs() =~= old(self).errs() + (se.errs
                        + Seq::<LoxResultV>::empty()));
                }
                Ok(Stmt::Expression(ExpressionStmt { expression: value }))
            },
            Err(e) => {
                proof {
                    assert(self.errs() =~= old(self).errs() + (se.errs + seq![
                        parse_err(t0[jr], "Expected ';' after value;"@),
                    ]));
                }
                Err(e)
            },
        }
    }

    /// Zero or more declarations up to and including the closing brace:
    /// exactly `spec_block_more` from an empty prefix.
    #[verifier::spinoff_prover]
    #[verifier::rlimit(100)]
    fn block(&mut self) -> (r: Result<Vec<Stmt>, LoxResult>)
        requires
            old(self).wf(),
        ensures
            Self::frame(*old(self), *final(self)),
            r matches Ok(ss) ==> forall|i: int|
                0 <= i < ss@.len() ==> well_formed_stmt(#[trigger] ss@[i]),
            ({
                let s = spec_block_more(old(self).toks(), old(self).cur(), Seq::empty());
                &&& final(self).cur() == s.next
                &&& final(self).errs() =~= old(self).errs() + s.errs
                &&& match (r, s.res) {
                    (Ok(v), Ok(ss)) => stmts_match(v@, ss),
                    (Err(e), Err(ev)) => e@ == ev,
                    _ => false,
                }
            }),
        decreases old(self).remaining(), 21int,
    {
        let ghost t0 = self.toks();
        let ghost i0 = self.cur();
        let mut statements: Vec<Stmt> = Vec::new();
        let ghost mut sstmts: Seq<StmtS> = Seq::empty();
        let ghost mut emitted: Seq<LoxResultV> = Seq::empty();
        while !self.check(&TokenType::RightBrace) && !self.is_at_end()
            invariant
                Self::frame(*old(self), *self),
                t0 == old(self).toks(),
                i0 == old(self).cur(),
                forall|i: int|
                    0 <= i < statements@.len() ==> well_formed_stmt(#[trigger] statements@[i]),
                stmts_match(statements@, sstmts),
                self.errs() == old(self).errs() + emitted,
                spec_block_more(t0, i0, Seq::empty()) == pres_seq(
                    emitted,
                    spec_block_more(t0, self.cur() as int, sstmts),
                ),
            decreases self.toks().len() - self.cur(),
        {
            let ghost ch = self.cur();
            let ghost sd = spec_declaration(t0, ch);
            match self.declaration() {
                Ok(d) => {
                    proof {
                        assert(clamp_pos(sd.next, ch + 1, t0.len() as int) == sd.next);
                        assert(spec_block_more(t0, ch, sstmts) == pres_seq(
                            sd.errs,
                            spec_block_more(t0, sd.next, sstmts.push(sd.res->Ok_0)),
                        ));
                        lemma_pres_seq_assoc(
                            emitted,
                            sd.errs,
                            spec_block_more(t0, sd.next, sstmts.push(sd.res->Ok_0)),
                        );
                        emitted = emitted + sd.errs;
                        sstmts = sstmts.push(sd.res->Ok_0);
                        assert(self.errs() =~= old(self).errs() + emitted);
                    }
                    statements.push(d);
                    proof {
                        assert(stmts_match(statements@, sstmts));
                    }
                },
                Err(e) => {
                    proof {
                        assert(self.errs() =~= old(self).errs() + (emitted + sd.errs));
                    }
                    return Err(e);
                },
            }
        }
        let ghost jr = self.cur();
        match self.consume(TokenType::RightBrace, "Expect '}' after block.") {
            Ok(_) => {
                proof {
                    assert(self.errs() =~= old(self).errs() + (emitted
                        + Seq::<LoxResultV>::empty()));
                }
                Ok(statements)
            },
            Err(e) => {
                proof {
                    assert(self.errs() =~= old(self).errs() + (emitted + seq![
                        parse_err(t0[jr], "Expect '}' after block."@),
                    ]));
                }
                Err(e)
            },
        }
    }

    /// `if` with an optional `else` that binds to the nearest preceding
    /// `if` (the else is attached by this innermost call): exactly
    /// `spec_if_statement`.
    #[verifier::spinoff_prover]
    #[verifier::rlimit(100)]
    fn if_statement(&mut self) -> (r: Result<Stmt, LoxResult>)
        requires
            old(self).wf(),
        ensures
            Self::frame(*old(self), *final(self)),
            r matches Ok(st) ==> well_formed_stmt(st) && st is If,
            ({
                let s = spec_if_statement(old(self).toks(), old(self).cur());
                &&& final(self).cur() == s.next
                &&& final(self).errs() =~= old(self).errs() + s.errs
                &&& match (r, s.res) {
                    (Ok(st), Ok(ss)) => stmt_matches(st, ss),
                    (Err(e), Err(ev)) => e@ == ev,
                    _ => false,
                }
            }),
        decreases old(self).remaining(), 15int,
    {
        let ghost t0 = self.toks();
        let ghost i0 = self.cur();
        let _ = match self.consume(TokenType::LeftParen, "Expected '(' after if.") {
            Ok(t) => t,
            Err(e) => {
                return Err(e);
            },
        };
        let condition = match self.expression() {
            Ok(c) => c,
            Err(e) => {
                return Err(e);
            },
        };
        let ghost sc = spec_expression(t0, i0 + 1);
        proof {
            assert(clamp_pos(sc.next, i0 + 1, t0.len() as int) == sc.next);
        }
        let ghost jr = self.cur();
        let _ = match self.consume(TokenType::RightParen, "Expected ')' after if condition.") {
            Ok(t) => t,
            Err(e) => {
                proof {
                    assert(self.errs() =~= old(self).errs() + (sc.errs + seq![
                        parse_err(t0[jr], "Expected ')' after if condition."@),
                    ]));
                }
                return Err(e);
            },
        };
        proof {
            assert(clamp_pos(jr + 1, i0 + 1, t0.len() as int) == jr + 1);
        }
        let ghost st = spec_statement(t0, jr + 1);
        let then_branch = match self.statement() {
            Ok(s1) => Box::new(s1),
            Err(e) => {
                proof {
                    assert(self.errs() =~= old(self).errs() + (sc.errs + st.errs));
                }
                return Err(e);
            },
        };
        let ghost jt = self.cur();
        proof {
            assert(clamp_pos(st.next, i0 + 1, t0.len() as int) == st.next);
        }
        if self.matches(&[TokenType::Else]) {
            let ghost sse = spec_statement(t0, jt + 1);
            match self.statement() {
                Ok(els) => {
                    proof {
                        assert(self.errs() =~= old(self).errs() + (sc.errs + st.errs
                            + sse.errs));
                    }
                    Ok(
                        Stmt::If(
                            IfStmt {
                                condition,
                                then_branch,
                                else_branch: Some(Box::new(els)),
                            },
                        ),
                    )
                },
                Err(e) => {
                    proof {
                        assert(self.errs() =~= old(self).errs() + (sc.errs + st.errs
                            + sse.errs));
                    }
                    Err(e)
                },
            }
        } else {
            proof {
                assert(self.errs() =~= old(self).errs() + (sc.errs + st.errs));
            }
            Ok(Stmt::If(IfStmt { condition, then_branch, else_branch: None }))
        }
    }

    #[verifier::spinoff_prover]
    #[verifier::rlimit(100)]
    fn while_statement(&mut self) -> (r: Result<Stmt, LoxResult>)
        requires
            old(self).wf(),
        ensures
            Self::frame(*old(self), *final(self)),
            r matches Ok(st) ==> well_formed_stmt(st) && st is While,
            ({
                let s = spec_while_statement(old(self).toks(), old(self).cur());
                &&& final(self).cur() == s.next
                &&& final(self).errs() =~= old(self).errs() + s.errs
                &&& match (r, s.res) {
                    (Ok(st), Ok(ss)) => stmt_matches(st, ss),
                    (Err(e), Err(ev)) => e@ == ev,
                    _ => false,
                }
            }),
        decreases old(self).remaining(), 15int,
    {
        let ghost t0 = self.toks();
        let ghost i0 = self.cur();
        let _ = match self.consume(TokenType::LeftParen, "Expect '(' after 'while'.") {
            Ok(t) => t,
            Err(e) => {
                return Err(e);
            },
        };
        let condition = match self.expression() {
            Ok(c) => c,
            Err(e) => {
                return Err(e);
            },
        };
        let ghost sc = spec_expression(t0, i0 + 1);
        proof {
            assert(clamp_pos(sc.next, i0 + 1, t0.len() as int) == sc.next);
        }
        let ghost jr = self.cur();
        let _ = match self.consume(TokenType::RightParen, "Expect ')' after condition.") {
            Ok(t) => t,
            Err(e) => {
                proof {
                    assert(self.errs() =~= old(self).errs() + (sc.errs + seq![
                        parse_err(t0[jr], "Expect ')' after condition."@),
                    ]));
                }
                return Err(e);
            },
        };
        proof {
            assert(clamp_pos(jr + 1, i0 + 1, t0.len() as int) == jr + 1);
        }
        let ghost sb = spec_statement(t0, jr + 1);
        match self.statement() {
            Ok(body) => {
                proof {
                    assert(self.errs() =~= old(self).errs() + (sc.errs + sb.errs));
                }
                Ok(Stmt::While(WhileStmt { condition, body: Box::new(body) }))
            },
            Err(e) => {
                proof {
                    assert(self.errs() =~= old(self).errs() + (sc.errs + sb.errs));
                }
                Err(e)
            },
        }
    }

    /// Builds the desugared `for` statement from its parsed clauses,
    /// exactly `for_desugar`.
    #[verifier::spinoff_prover]
    #[verifier::rlimit(100)]
    fn build_for(
        initializer: Option<Stmt>,
        condition: Option<Expr>,
        increment: Option<Expr>,
        body: Stmt,
        Ghost(sinit): Ghost<Option<StmtS>>,
        Ghost(scond): Ghost<Option<ExprS>>,
        Ghost(sincr): Ghost<Option<ExprS>>,
        Ghost(sbody): Ghost<StmtS>,
    ) -> (st: Stmt)
        requires
            match (initializer, sinit) {
                (Some(a), Some(b)) => stmt_matches(a, b) && well_formed_stmt(a),
                (None, None) => true,
                _ => false,
            },
            match (condition, scond) {
                (Some(a), Some(b)) => expr_matches(a, b) && well_formed_expr(a) && expr_tier(a)
                    <= 9,
                (None, None) => true,
                _ => false,
            },
            match (increment, sincr) {
                (Some(a), Some(b)) => expr_matches(a, b) && well_formed_expr(a) && expr_tier(a)
                    <= 9,
                (None, None) => true,
                _ => false,
            },
            stmt_matches(body, sbody),
            well_formed_stmt(body),
        ensures
            well_formed_stmt(st),
            stmt_matches(st, for_desugar(sinit, scond, sincr, sbody)),
    {
        let mut body = body;
        match increment {
            Some(inc) => {
                let ghost g_body = body;
                let ghost g_inc = inc;
                let mut inner: Vec<Stmt> = Vec::new();
                inner.push(body);
                inner.push(Stmt::Expression(ExpressionStmt { expression: inc }));
                proof {
                    assert(inner@.len() == 2);
                    assert(inner@[0] == g_body);
                    assert(inner@[1] == Stmt::Expression(ExpressionStmt { expression: g_inc }));
                    assert(forall|i: int|
                        0 <= i < inner@.len() ==> well_formed_stmt(#[trigger] inner@[i]));
                }
                body = Stmt::Block(BlockStmt { statements: inner });
                proof {
                    let ss1 = seq![sbody, StmtS::Expression { expression: sincr->Some_0 }];
                    assert(ss1.len() == 2);
                    assert(ss1[0] == sbody);
                    assert(ss1[1] == StmtS::Expression { expression: sincr->Some_0 });
                    assert(stmt_matches(inner@[1], ss1[1]));
                    assert forall|k: int| 0 <= k < ss1.len() implies stmt_matches(
                        #[trigger] inner@[k],
                        ss1[k],
                    ) by {
                        if k == 0 {
                            assert(stmt_matches(inner@[0], ss1[0]));
                        } else {
                            assert(stmt_matches(inner@[1], ss1[1]));
                        }
                    }
                    assert(stmt_matches(body, StmtS::Block { statements: ss1 }));
                }
            },
            None => {},
        }
        let cond = match condition {
            Some(c) => c,
            None => Expr::Literal(LiteralExpr { value: Some(Lit::Bool(true)) }),
        };
        proof {
            assert(well_formed_expr(cond) && expr_tier(cond) <= 9);
            assert(well_formed_stmt(body));
        }
        body = Stmt::While(WhileStmt { condition: cond, body: Box::new(body) });
        proof {
            assert(well_formed_stmt(body));
        }
        let ghost g_while = body;
        match initializer {
            Some(init) => {
                let ghost g_init = init;
                let mut outer: Vec<Stmt> = Vec::new();
                outer.push(init);
                outer.push(body);
                proof {
                    assert(outer@.len() == 2);
                    assert(outer@[0] == g_init);
                    assert(outer@[1] == g_while);
                    assert(forall|i: int|
                        0 <= i < outer@.len() ==> well_formed_stmt(#[trigger] outer@[i]));
                }
                let res = Stmt::Block(BlockStmt { statements: outer });
                proof {
                    let sw = for_desugar(sinit, scond, sincr, sbody);
                    let ss2 = sw->Block_statements;
                    assert(ss2.len() == 2);
                    assert(stmt_matches(outer@[0], ss2[0]));
                    assert(stmt_matches(outer@[1], ss2[1]));
                    assert forall|k: int| 0 <= k < ss2.len() implies stmt_matches(
                        #[trigger] outer@[k],
                        ss2[k],
                    ) by {
                        if k == 0 {
                            assert(stmt_matches(outer@[0], ss2[0]));
                        } else {
                            assert(stmt_matches(outer@[1], ss2[1]));
                        }
                    }
                    assert(stmt_matches(res, sw));
                }
                res
            },
            None => {
                proof {
                    assert(stmt_matches(g_while, for_desugar(sinit, scond, sincr, sbody)));
                }
                body
            },
        }
    }

    /// The optional initializer of a `for`: exactly `spec_for_init`.
    #[verifier::spinoff_prover]
    #[verifier::rlimit(100)]
    fn for_init(&mut self) -> (r: Result<Option<Stmt>, LoxResult>)
        requires
            old(self).wf(),
        ensures
            Self::frame(*old(self), *final(self)),
            ({
                let s = spec_for_init(old(self).toks(), old(self).cur());
                &&& final(self).cur() == s.next
                &&& final(self).errs() =~= old(self).errs() + s.errs
                &&& match (r, s.res) {
                    (Ok(c), Ok(sc)) => match (c, sc) {
                        (Some(a), Some(b)) => stmt_matches(a, b) && well_formed_stmt(a),
                        (None, None) => true,
                        _ => false,
                    },
                    (Err(e), Err(ev)) => e@ == ev,
                    _ => false,
                }
            }),
        decreases old(self).remaining(), 13int,
    {
        if self.matches(&[TokenType::Semicolon]) {
            proof {
                assert(self.errs() =~= old(self).errs() + Seq::<LoxResultV>::empty());
            }
            return Ok(None);
        }
        if self.matches(&[TokenType::Var]) {
            match self.var_declaration() {
                Ok(st) => {
                    return Ok(Some(st));
                },
                Err(e) => {
                    return Err(e);
                },
            }
        }
        match self.expression_statement() {
            Ok(st) => Ok(Some(st)),
            Err(e) => Err(e),
        }
    }

    /// An optional expression, absent when the next token is `stop`:
    /// exactly `spec_opt_expr`.
    #[verifier::spinoff_prover]
    #[verifier::rlimit(100)]
    fn opt_expression(&mut self, stop: TokenType) -> (r: Result<Option<Expr>, LoxResult>)
        requires
            old(self).wf(),
            stop != TokenType::Eof,
        ensures
            Self::frame(*old(self), *final(self)),
            ({
                let s = spec_opt_expr(old(self).toks(), old(self).cur(), stop);
                &&& final(self).cur() == s.next
                &&& final(self).errs() =~= old(self).errs() + s.errs
                &&& match (r, s.res) {
                    (Ok(c), Ok(sc)) => match (c, sc) {
                        (Some(a), Some(b)) => expr_matches(a, b) && well_formed_expr(a)
                            && expr_tier(a) <= 9,
                        (None, None) => true,
                        _ => false,
                    },
                    (Err(e), Err(ev)) => e@ == ev,
                    _ => false,
                }
            }),
        decreases old(self).remaining(), 13int,
    {
        if self.check(&stop) {
            proof {
                assert(self.errs() =~= old(self).errs() + Seq::<LoxResultV>::empty());
            }
            return Ok(None);
        }
        match self.expression() {
            Ok(e) => Ok(Some(e)),
            Err(e) => Err(e),
        }
    }

    /// The three clauses between the parentheses of a `for`: exactly
    /// `spec_for_clauses`.
    #[verifier::spinoff_prover]
    #[verifier::rlimit(100)]
    fn for_clauses(&mut self) -> (r: Result<
        (Option<Stmt>, Option<Expr>, Option<Expr>),
        LoxResult,
    >)
        requires
            old(self).wf(),
        ensures
            Self::frame(*old(self), *final(self)),
            ({
                let s = spec_for_clauses(old(self).toks(), old(self).cur());
                &&& final(self).cur() == s.next
                &&& final(self).errs() =~= old(self).errs() + s.errs
                &&& match (r, s.res) {
                    (Ok(c), Ok(sc)) => {
                        &&& match (c.0, sc.0) {
                            (Some(a), Some(b)) => stmt_matches(a, b) && well_formed_stmt(a),
                            (None, None) => true,
                            _ => false,
                        }
                        &&& match (c.1, sc.1) {
                            (Some(a), Some(b)) => expr_matches(a, b) && well_formed_expr(a)
                                && expr_tier(a) <= 9,
                            (None, None) => true,
                            _ => false,
                        }
                        &&& match (c.2, sc.2) {
                            (Some(a), Some(b)) => expr_matches(a, b) && well_formed_expr(a)
                                && expr_tier(a) <= 9,
                            (None, None) => true,
                            _ => false,
                        }
                    },
                    (Err(e), Err(ev)) => e@ == ev,
                    _ => false,
                }
            }),
        decreases old(self).remaining(), 14int,
    {
        let ghost t0 = self.toks();
        let ghost i0 = self.cur();
        let ghost ri = spec_for_init(t0, i0);
        let initializer = match self.for_init() {
            Ok(c) => c,
            Err(e) => {
                return Err(e);
            },
        };
        proof {
            assert(clamp_pos(ri.next, i0, t0.len() as int) == ri.next);
        }
        let ghost p = self.cur();
        let ghost rcnd = spec_opt_expr(t0, p, TokenType::Semicolon);
        let condition = match self.opt_expression(TokenType::Semicolon) {
            Ok(c) => c,
            Err(e) => {
                proof {
                    assert(self.errs() =~= old(self).errs() + (ri.errs + rcnd.errs));
                }
                return Err(e);
            },
        };
        proof {
            assert(clamp_pos(rcnd.next, p, t0.len() as int) == rcnd.next);
        }
        let ghost jc = self.cur();
        let _ = match self.consume(TokenType::Semicolon, "Expect ';' after  loop condition.") {
            Ok(t) => t,
            Err(e) => {
                proof {
                    assert(self.errs() =~= old(self).errs() + (ri.errs + rcnd.errs + seq![
                        parse_err(t0[jc], "Expect ';' after  loop condition."@),
                    ]));
                }
                return Err(e);
            },
        };
        let ghost q = self.cur();
        let ghost rinc = spec_opt_expr(t0, q, TokenType::RightParen);
        let increment = match self.opt_expression(TokenType::RightParen) {
            Ok(c) => c,
            Err(e) => {
                proof {
                    assert(self.errs() =~= old(self).errs() + (ri.errs + rcnd.errs
                        + rinc.errs));
                }
                return Err(e);
            },
        };
        proof {
            assert(clamp_pos(rinc.next, q, t0.len() as int) == rinc.next);
        }
        let ghost jp = self.cur();
        let _ = match self.consume(TokenType::RightParen, "Expect ')' after for clauses.") {
            Ok(t) => t,
            Err(e) => {
                proof {
                    assert(self.errs() =~= old(self).errs() + (ri.errs + rcnd.errs + rinc.errs
                        + seq![parse_err(t0[jp], "Expect ')' after for clauses."@)]));
                }
                return Err(e);
            },
        };
        proof {
            assert(self.errs() =~= old(self).errs() + (ri.errs + rcnd.errs + rinc.errs));
        }
        Ok((initializer, condition, increment))
    }

    /// `for` desugared at parse time, exactly `spec_for_statement`: the
    /// optional initializer runs once inside a synthetic block, the loop
    /// becomes a `while` whose omitted condition defaults to `true`, and
    /// the optional increment runs after the body on every iteration.
    #[verifier::spinoff_prover]
    #[verifier::rlimit(100)]
    fn for_statement(&mut self) -> (r: Result<Stmt, LoxResult>)
        requires
            old(self).wf(),
        ensures
            Self::frame(*old(self), *final(self)),
            r matches Ok(st) ==> well_formed_stmt(st),
            ({
                let s = spec_for_statement(old(self).toks(), old(self).cur());
                &&& final(self).cur() == s.next
                &&& final(self).errs() =~= old(self).errs() + s.errs
                &&& match (r, s.res) {
                    (Ok(st), Ok(ss)) => stmt_matches(st, ss),
                    (Err(e), Err(ev)) => e@ == ev,
                    _ => false,
                }
            }),
        decreases old(self).remaining(), 15int,
    {
        let ghost t0 = self.toks();
        let ghost i0 = self.cur();
        let _ = match self.consume(TokenType::LeftParen, "Expect '(' after 'for'.") {
            Ok(t) => t,
            Err(e) => {
                return Err(e);
            },
        };
        let ghost sc = spec_for_clauses(t0, i0 + 1);
        let (initializer, condition, increment) = match self.for_clauses() {
            Ok(c) => c,
            Err(e) => {
                return Err(e);
            },
        };
        proof {
            assert(clamp_pos(sc.next, i0 + 1, t0.len() as int) == sc.next);
        }
        let ghost sb = spec_statement(t0, sc.next);
        let body = match self.statement() {
            Ok(b) => b,
            Err(e) => {
                proof {
                    assert(self.errs() =~= old(self).errs() + (sc.errs + sb.errs));
                }
                return Err(e);
            },
        };
        let ghost sinit = sc.res->Ok_0.0;
        let ghost scond = sc.res->Ok_0.1;
        let ghost sincr = sc.res->Ok_0.2;
        let ghost sbody = sb.res->Ok_0;
        let res = Self::build_for(
            initializer,
            condition,
            increment,
            body,
            Ghost(sinit),
            Ghost(scond),
            Ghost(sincr),
            Ghost(sbody),
        );
        proof {
            assert(self.errs() =~= old(self).errs() + (sc.errs + sb.errs));
        }
        Ok(res)
    }

    /// A `var` declaration after the keyword: the consumed identifier is
    /// the name, the initializer is present exactly when `=` follows it,
    /// and the statement ends with a semicolon — exactly
    /// `spec_var_declaration`.
    #[verifier::spinoff_prover]
    #[verifier::rlimit(100)]
    fn var_declaration(&mut self) -> (r: Result<Stmt, LoxResult>)
        requires
            old(self).wf(),
        ensures
            Self::frame(*old(self), *final(self)),
            r matches Ok(st) ==> well_formed_stmt(st) && (st matches Stmt::Var(v) && v.name
                == old(self).toks()[old(self).cur()] && v.name.ttype == TokenType::Identifier),
            ({
                let s = spec_var_declaration(old(self).toks(), old(self).cur());
                &&& final(self).cur() == s.next
                &&& final(self).errs() =~= old(self).errs() + s.errs
                &&& match (r, s.res) {
                    (Ok(st), Ok(ss)) => stmt_matches(st, ss),
                    (Err(e), Err(ev)) => e@ == ev,
                    _ => false,
                }
            }),
        decreases old(self).remaining(), 15int,
    {
        let ghost t0 = self.toks();
        let ghost i0 = self.cur();
        let name = match self.consume(TokenType::Identifier, "Expect variable name.") {
            Ok(t) => t,
            Err(e) => {
                return Err(e);
            },
        };
        if self.matches(&[TokenType::Equal]) {
            let ghost se = spec_expression(t0, i0 + 2);
            let init = match self.expression() {
                Ok(v) => v,
                Err(e) => {
                    proof {
                        assert(self.errs() =~= old(self).errs() + se.errs);
                    }
                    return Err(e);
                },
            };
            proof {
                assert(clamp_pos(se.next, i0 + 2, t0.len() as int) == se.next);
            }
            let ghost jr = self.cur();
            match self.consume(TokenType::Semicolon, "Expected ';' after variable declaration.") {
                Ok(_) => {
                    proof {
                        assert(self.errs() =~= old(self).errs() + (se.errs
                            + Seq::<LoxResultV>::empty()));
                    }
                    Ok(Stmt::Var(VarStmt { name, initializer: Some(init) }))
                },
                Err(e) => {
                    proof {
                        assert(self.errs() =~= old(self).errs() + (se.errs + seq![
                            parse_err(t0[jr], "Expected ';' after variable declaration."@),
                        ]));
                    }
                    Err(e)
                },
            }
        } else {
            match self.consume(TokenType::Semicolon, "Expected ';' after variable declaration.") {
                Ok(_) => Ok(Stmt::Var(VarStmt { name, initializer: None })),
                Err(e) => Err(e),
            }
        }
    }

    /// Parses the whole program, exactly `spec_parse`: one statement per
    /// declaration that parsed, in source order, and every diagnostic of
    /// the pass. The statements are only trustworthy when the diagnostic
    /// list is empty (`success`).
    #[verifier::spinoff_prover]
    #[verifier::rlimit(100)]
    pub fn parse(&mut self) -> (r: (Vec<Stmt>, Vec<LoxResult>))
        requires
            old(self).wf(),
            old(self).errs().len() == 0,
            !old(self).had_err(),
        ensures
            final(self).wf(),
            forall|i: int| 0 <= i < r.0@.len() ==> well_formed_stmt(#[trigger] r.0@[i]),
            final(self).had_err() == (r.1@.len() > 0),
            forall|i: int| 0 <= i < r.1@.len() ==> (#[trigger] r.1@[i])@ is ParseError,
            ({
                let s = spec_parse(old(self).toks(), old(self).cur());
                &&& final(self).cur() == s.next
                &&& (s.res matches Ok(ss) && stmts_match(r.0@, ss))
                &&& r.1@.map_values(|e: LoxResult| e@) =~= s.errs
            }),
    {
        let ghost t0 = self.toks();
        let ghost i0 = self.cur();
        let mut statements: Vec<Stmt> = Vec::new();
        let ghost mut sstmts: Seq<StmtS> = Seq::empty();
        let ghost mut emitted: Seq<LoxResultV> = Seq::empty();
        while !self.is_at_end()
            invariant
                self.wf(),
                self.toks() == t0,
                t0 == old(self).toks(),
                i0 == old(self).cur(),
                i0 <= self.cur(),
                self.had_err() == (self.errs().len() > 0),
                forall|i: int|
                    0 <= i < statements@.len() ==> well_formed_stmt(#[trigger] statements@[i]),
                forall|i: int|
                    0 <= i < self.errs().len() ==> (#[trigger] self.errs()[i]) is ParseError,
                stmts_match(statements@, sstmts),
                self.errs() == emitted,
                ({
                    let whole = spec_parse(t0, i0);
                    let rest = spec_parse(t0, self.cur() as int);
                    &&& whole.next == rest.next
                    &&& whole.errs == emitted + rest.errs
                    &&& (rest.res matches Ok(rr) ==> (whole.res matches Ok(all) && all == sstmts
                        + rr))
                }),
            decreases self.toks().len() - self.cur(),
        {
            let ghost ch = self.cur();
            let ghost sd = spec_declaration(t0, ch);
            let ghost rest2 = spec_parse(t0, clamp_pos(sd.next, ch + 1, t0.len() as int));
            match self.declaration() {
                Ok(st) => {
                    proof {
                        assert(clamp_pos(sd.next, ch + 1, t0.len() as int) == sd.next);
                        emitted = emitted + sd.errs;
                        sstmts = sstmts.push(sd.res->Ok_0);
                        assert(self.errs() =~= emitted);
                        assert(spec_parse(t0, i0).errs =~= emitted + spec_parse(
                            t0,
                            self.cur() as int,
                        ).errs);
                        assert(rest2.res matches Ok(rr2) ==> sstmts + rr2 =~= sstmts.drop_last()
                            + (seq![sd.res->Ok_0] + rr2));
                    }
                    statements.push(st);
                    proof {
                        assert(stmts_match(statements@, sstmts));
                    }
                },
                Err(_) => {
                    proof {
                        assert(clamp_pos(sd.next, ch + 1, t0.len() as int) == sd.next);
                        emitted = emitted + sd.errs;
                        assert(self.errs() =~= emitted);
                        assert(spec_parse(t0, i0).errs =~= emitted + spec_parse(
                            t0,
                            self.cur() as int,
                        ).errs);
                    }
                },
            }
        }
        proof {
            assert(spec_parse(t0, self.cur() as int) == (PRes {
                next: self.cur() as int,
                errs: Seq::<LoxResultV>::empty(),
                res: Ok(Seq::<StmtS>::empty()),
            }));
            assert(spec_parse(t0, i0).errs =~= emitted);
            assert(spec_parse(t0, i0).res matches Ok(all) ==> all =~= sstmts);
        }
        let ghost preerrs = self.errs();
        let mut errs: Vec<LoxResult> = Vec::new();
        core::mem::swap(&mut errs, &mut self.errors);
        proof {
            assert forall|i: int| 0 <= i < errs@.len() implies (#[trigger] errs@[i])@
                is ParseError by {
                assert(preerrs[i] == errs@[i]@);
            }
            assert(errs@.map_values(|e: LoxResult| e@) =~= preerrs);
        }
        (statements, errs)
    }
}

} // verus!
