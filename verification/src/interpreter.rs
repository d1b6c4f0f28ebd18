//! The tree-walking evaluator.
//!
//! Expression evaluation is total, so its meaning is a plain recursive
//! function `eval` over the tree; `evaluate` returns exactly what `eval`
//! says. Statements may loop forever, so their meaning is the fuel-indexed
//! function `exec_stmt`, which spends one unit of fuel per loop iteration
//! and answers `None` when the fuel runs out; `execute` is then specified
//! to return what `exec_stmt` yields for some sufficient fuel. A runtime
//! error stops the whole run: `interpret` executes top-level statements in
//! order until the first failure.

use vstd::prelude::*;
use vstd::string::StringExecFns;
use crate::environment::{env_assign, env_define, env_lookup, EnvV, Environment};
use crate::error::{LoxResult, LoxResultV};
use crate::expr::Expr;
use crate::lit::{spec_lit_eq, spec_render, spec_truthy, Lit, LitV};
use crate::num::{
    add_bits, div_bits, ge_bits, gt_bits, le_bits, lt_bits, mul_bits, neg_bits, num_add, num_div,
    num_eq, num_ge, num_gt, num_le, num_lt, num_mul, num_neg, num_sub, sub_bits,
};
use crate::stmt::Stmt;
use crate::token::{Token, TokenV};
use crate::token_type::TokenType;

verus! {

broadcast use vstd::std_specs::vec::group_vec_axioms, vstd::seq::group_seq_axioms;

/// The observable state of a run: the scope chain and the lines printed so
/// far.
#[verifier::ext_equal]
pub struct StateV {
    pub env: EnvV,
    pub output: Seq<Seq<char>>,
}

pub open spec fn rt_err(t: TokenV, msg: Seq<char>) -> LoxResultV {
    LoxResultV::RuntimeError { token: t, message: msg }
}

/// The meaning of a binary operator applied to two already-evaluated
/// operands. Arithmetic and ordering require two numbers; `+` also accepts
/// two strings; equality accepts anything and never fails.
pub open spec fn eval_binop(op: TokenV, a: LitV, b: LitV) -> Result<LitV, LoxResultV> {
    match op.ttype {
        TokenType::Plus => match (a, b) {
            (LitV::Num(x), LitV::Num(y)) => Ok(LitV::Num(add_bits(x, y))),
            (LitV::Str(x), LitV::Str(y)) => Ok(LitV::Str(x + y)),
            _ => Err(rt_err(op, "Expected two numbers or two strings."@)),
        },
        TokenType::Minus => match (a, b) {
            (LitV::Num(x), LitV::Num(y)) => Ok(LitV::Num(sub_bits(x, y))),
            _ => Err(rt_err(op, "Expected two numbers."@)),
        },
        TokenType::Star => match (a, b) {
            (LitV::Num(x), LitV::Num(y)) => Ok(LitV::Num(mul_bits(x, y))),
            _ => Err(rt_err(op, "Expected two numbers."@)),
        },
        TokenType::Slash => match (a, b) {
            (LitV::Num(x), LitV::Num(y)) => Ok(LitV::Num(div_bits(x, y))),
            _ => Err(rt_err(op, "Expected two numbers."@)),
        },
        TokenType::Greater => match (a, b) {
            (LitV::Num(x), LitV::Num(y)) => Ok(LitV::Bool(gt_bits(x, y))),
            _ => Err(rt_err(op, "Expected two numbers."@)),
        },
        TokenType::GreaterEqual => match (a, b) {
            (LitV::Num(x), LitV::Num(y)) => Ok(LitV::Bool(ge_bits(x, y))),
            _ => Err(rt_err(op, "Expected two numbers."@)),
        },
        TokenType::Less => match (a, b) {
            (LitV::Num(x), LitV::Num(y)) => Ok(LitV::Bool(lt_bits(x, y))),
            _ => Err(rt_err(op, "Expected two numbers."@)),
        },
        TokenType::LessEqual => match (a, b) {
            (LitV::Num(x), LitV::Num(y)) => Ok(LitV::Bool(le_bits(x, y))),
            _ => Err(rt_err(op, "Expected two numbers."@)),
        },
        TokenType::EqualEqual => Ok(LitV::Bool(spec_lit_eq(a, b))),
        TokenType::BangEqual => Ok(LitV::Bool(!spec_lit_eq(a, b))),
        _ => Err(rt_err(op, "Illegal expression."@)),
    }
}

/// The meaning of an expression: the scope chain after evaluation (an
/// assignment anywhere inside may change it) and either the value or the
/// runtime error. Expression evaluation always terminates.
pub open spec fn eval(e: Expr, env: EnvV) -> (EnvV, Result<LitV, LoxResultV>)
    decreases e,
{
    match e {
        Expr::Literal(l) => (
            env,
            Ok(
                match l.value {
                    Some(v) => v@,
                    None => LitV::Nil,
                },
            ),
        ),
        Expr::Grouping(g) => eval(*g.expression, env),
        Expr::Variable(v) => (
            env,
            match env_lookup(env, v.name.lexeme@) {
                Some(val) => Ok(val),
                None => Err(
                    rt_err(v.name@, "Undefined variable '"@ + v.name.lexeme@ + "'."@),
                ),
            },
        ),
        Expr::Assign(a) => {
            let (env1, r) = eval(*a.value, env);
            match r {
                Ok(v) => match env_assign(env1, a.name.lexeme@, v) {
                    Some(env2) => (env2, Ok(v)),
                    None => (
                        env1,
                        Err(rt_err(a.name@, "Undefined variable "@ + a.name.lexeme@ + "."@)),
                    ),
                },
                Err(er) => (env1, Err(er)),
            }
        },
        Expr::Logical(l) => {
            let (env1, r) = eval(*l.left, env);
            match r {
                Ok(v) => if l.operator.ttype == TokenType::Or {
                    if spec_truthy(v) {
                        (env1, Ok(v))
                    } else {
                        eval(*l.right, env1)
                    }
                } else {
                    if !spec_truthy(v) {
                        (env1, Ok(v))
                    } else {
                        eval(*l.right, env1)
                    }
                },
                Err(er) => (env1, Err(er)),
            }
        },
        Expr::Unary(u) => {
            let (env1, r) = eval(*u.right, env);
            match r {
                Ok(v) => (
                    env1,
                    match u.operator.ttype {
                        TokenType::Minus => match v {
                            LitV::Num(b) => Ok(LitV::Num(neg_bits(b))),
                            _ => Ok(LitV::Nil),
                        },
                        TokenType::Bang => Ok(LitV::Bool(!spec_truthy(v))),
                        _ => Err(
                            LoxResultV::Error {
                                line: u.operator.line as nat,
                                message: "Unreachable code."@,
                            },
                        ),
                    },
                ),
                Err(er) => (env1, Err(er)),
            }
        },
        Expr::Binary(b) => {
            let (env1, r1) = eval(*b.left, env);
            match r1 {
                Ok(v1) => {
                    let (env2, r2) = eval(*b.right, env1);
                    match r2 {
                        Ok(v2) => (env2, eval_binop(b.operator@, v1, v2)),
                        Err(er) => (env2, Err(er)),
                    }
                },
                Err(er) => (env1, Err(er)),
            }
        },
        Expr::Call(c) => (
            env,
            Err(rt_err(c.paren@, "Function calls are not supported."@)),
        ),
    }
}

/// Equality comparisons are defined for every pair of operand values:
/// `==` and `!=` never raise a runtime error, whatever the operand
/// variants — comparing across variants simply yields false.
pub proof fn lemma_equality_never_errors(op: TokenV, a: LitV, b: LitV)
    requires
        op.ttype == TokenType::EqualEqual || op.ttype == TokenType::BangEqual,
    ensures
        eval_binop(op, a, b) is Ok,
{
}

/// Arithmetic on two numbers always yields a number: division by zero
/// included, which follows IEEE-754 and produces an infinity or NaN
/// value rather than an error.
pub proof fn lemma_arithmetic_on_numbers_total(op: TokenV, a: LitV, b: LitV)
    requires
        a is Num,
        b is Num,
        op.ttype == TokenType::Plus || op.ttype == TokenType::Minus || op.ttype == TokenType::Star
            || op.ttype == TokenType::Slash,
    ensures
        eval_binop(op, a, b) matches Ok(v) && v is Num,
{
}

/// How a `Result` from the evaluator relates to its mathematical meaning.
pub open spec fn lit_result_matches(
    r: Result<Lit, LoxResult>,
    s: Result<LitV, LoxResultV>,
) -> bool {
    match (r, s) {
        (Ok(l), Ok(v)) => l@ == v,
        (Err(e), Err(ev)) => e@ == ev,
        _ => false,
    }
}

pub open spec fn err_of(r: Result<LitV, LoxResultV>) -> Option<LoxResultV> {
    match r {
        Ok(_) => None,
        Err(e) => Some(e),
    }
}

/// How a statement's `Result` relates to the error slot of `exec_stmt`.
pub open spec fn res_view(r: Result<(), LoxResult>) -> Option<LoxResultV> {
    match r {
        Ok(_) => None,
        Err(e) => Some(e@),
    }
}

/// The meaning of one statement, with `fuel` bounding how many loop
/// iterations may still be taken: `None` means the fuel ran out, and
/// `Some((st, e))` gives the state after execution and the runtime error
/// that stopped it, if one did. A block's scope is popped again no matter
/// how the body ended.
pub open spec fn exec_stmt(s: Stmt, st: StateV, fuel: nat) -> Option<(StateV, Option<LoxResultV>)>
    decreases fuel, s, 0int,
{
    match s {
        Stmt::Expression(es) => {
            let (env1, r) = eval(es.expression, st.env);
            Some((StateV { env: env1, output: st.output }, err_of(r)))
        },
        Stmt::Print(p) => {
            let (env1, r) = eval(p.expression, st.env);
            match r {
                Ok(v) => Some(
                    (StateV { env: env1, output: st.output.push(spec_render(v)) }, None),
                ),
                Err(er) => Some((StateV { env: env1, output: st.output }, Some(er))),
            }
        },
        Stmt::Var(vs) => match vs.initializer {
            Some(init) => {
                let (env1, r) = eval(init, st.env);
                match r {
                    Ok(v) => Some(
                        (
                            StateV {
                                env: env_define(env1, vs.name.lexeme@, v),
                                output: st.output,
                            },
                            None,
                        ),
                    ),
                    Err(er) => Some((StateV { env: env1, output: st.output }, Some(er))),
                }
            },
            None => Some(
                (
                    StateV {
                        env: env_define(st.env, vs.name.lexeme@, LitV::Nil),
                        output: st.output,
                    },
                    None,
                ),
            ),
        },
        Stmt::Block(b) => match exec_stmts(
            b.statements@,
            0,
            StateV { env: st.env.push(Map::empty()), output: st.output },
            fuel,
        ) {
            Some((st1, e)) => Some(
                (StateV { env: st1.env.drop_last(), output: st1.output }, e),
            ),
            None => None,
        },
        Stmt::If(i) => {
            let (env1, r) = eval(i.condition, st.env);
            let st1 = StateV { env: env1, output: st.output };
            match r {
                Ok(v) => if spec_truthy(v) {
                    exec_stmt(*i.then_branch, st1, fuel)
                } else {
                    match i.else_branch {
                        Some(e) => exec_stmt(*e, st1, fuel),
                        None => Some((st1, None)),
                    }
                },
                Err(er) => Some((st1, Some(er))),
            }
        },
        Stmt::While(w) => {
            if fuel == 0 {
                None
            } else {
                let (env1, r) = eval(w.condition, st.env);
                let st1 = StateV { env: env1, output: st.output };
                match r {
                    Ok(v) => if spec_truthy(v) {
                        match exec_stmt(*w.body, st1, (fuel - 1) as nat) {
                            Some((st2, None)) => exec_stmt(s, st2, (fuel - 1) as nat),
                            other => other,
                        }
                    } else {
                        Some((st1, None))
                    },
                    Err(er) => Some((st1, Some(er))),
                }
            }
        },
        Stmt::Function(f) => Some(
            (st, Some(rt_err(f.name@, "Function declarations are not supported."@))),
        ),
    }
}

/// The meaning of the statements `ss[i..]` run in order, stopping at the
/// first one that fails.
pub open spec fn exec_stmts(ss: Seq<Stmt>, i: int, st: StateV, fuel: nat) -> Option<
    (StateV, Option<LoxResultV>),
>
    decreases fuel, ss, ss.len() - i,
{
    if i < 0 || i >= ss.len() {
        Some((st, None))
    } else {
        match exec_stmt(ss[i], st, fuel) {
            Some((st1, None)) => exec_stmts(ss, i + 1, st1, fuel),
            other => other,
        }
    }
}

/// Evaluating an expression never changes how many scopes are chained.
pub proof fn lemma_eval_env_len(e: Expr, env: EnvV)
    ensures
        eval(e, env).0.len() == env.len(),
    decreases e,
{
    match e {
        Expr::Grouping(g) => lemma_eval_env_len(*g.expression, env),
        Expr::Assign(a) => {
            lemma_eval_env_len(*a.value, env);
            let (env1, r) = eval(*a.value, env);
            match r {
                Ok(v) => crate::environment::lemma_env_assign_len(env1, a.name.lexeme@, v),
                Err(_) => (),
            }
        },
        Expr::Logical(l) => {
            lemma_eval_env_len(*l.left, env);
            let (env1, r) = eval(*l.left, env);
            match r {
                Ok(_) => lemma_eval_env_len(*l.right, env1),
                Err(_) => (),
            }
        },
        Expr::Unary(u) => lemma_eval_env_len(*u.right, env),
        Expr::Binary(b) => {
            lemma_eval_env_len(*b.left, env);
            let (env1, r1) = eval(*b.left, env);
            match r1 {
                Ok(_) => lemma_eval_env_len(*b.right, env1),
                Err(_) => (),
            }
        },
        _ => (),
    }
}

/// A statement that finishes within budget leaves as many scopes chained
/// as it found.
pub proof fn lemma_exec_stmt_env_len(s: Stmt, st: StateV, fuel: nat)
    requires
        st.env.len() > 0,
    ensures
        match exec_stmt(s, st, fuel) {
            Some(p) => p.0.env.len() == st.env.len(),
            None => true,
        },
    decreases fuel, s, 0int,
{
    match s {
        Stmt::Expression(es) => {
            lemma_eval_env_len(es.expression, st.env);
        },
        Stmt::Print(p) => {
            lemma_eval_env_len(p.expression, st.env);
        },
        Stmt::Var(vs) => {
            match vs.initializer {
                Some(init) => lemma_eval_env_len(init, st.env),
                None => (),
            }
        },
        Stmt::Block(b) => {
            lemma_exec_stmts_env_len(
                b.statements@,
                0,
                StateV { env: st.env.push(Map::empty()), output: st.output },
                fuel,
            );
        },
        Stmt::If(i) => {
            lemma_eval_env_len(i.condition, st.env);
            let (env1, r) = eval(i.condition, st.env);
            let st1 = StateV { env: env1, output: st.output };
            match r {
                Ok(v) => if spec_truthy(v) {
                    lemma_exec_stmt_env_len(*i.then_branch, st1, fuel);
                } else {
                    match i.else_branch {
                        Some(e) => lemma_exec_stmt_env_len(*e, st1, fuel),
                        None => (),
                    }
                },
                Err(_) => (),
            }
        },
        Stmt::While(w) => {
            if fuel > 0 {
                lemma_eval_env_len(w.condition, st.env);
                let (env1, r) = eval(w.condition, st.env);
                let st1 = StateV { env: env1, output: st.output };
                match r {
                    Ok(v) => if spec_truthy(v) {
                        lemma_exec_stmt_env_len(*w.body, st1, (fuel - 1) as nat);
                        match exec_stmt(*w.body, st1, (fuel - 1) as nat) {
                            Some((st2, None)) => lemma_exec_stmt_env_len(
                                s,
                                st2,
                                (fuel - 1) as nat,
                            ),
                            _ => (),
                        }
                    },
                    Err(_) => (),
                }
            }
        },
        Stmt::Function(_) => (),
    }
}

pub proof fn lemma_exec_stmts_env_len(ss: Seq<Stmt>, i: int, st: StateV, fuel: nat)
    requires
        st.env.len() > 0,
    ensures
        match exec_stmts(ss, i, st, fuel) {
            Some(p) => p.0.env.len() == st.env.len(),
            None => true,
        },
    decreases fuel, ss, ss.len() - i,
{
    if 0 <= i < ss.len() {
        lemma_exec_stmt_env_len(ss[i], st, fuel);
        match exec_stmt(ss[i], st, fuel) {
            Some((st1, None)) => lemma_exec_stmts_env_len(ss, i + 1, st1, fuel),
            _ => (),
        }
    }
}

/// The tree-walking interpreter: the live scope chain, the lines printed
/// so far, and the error that ended the run, if one did.
pub struct Interpreter {
    environment: Environment,
    output: Vec<String>,
    error: Option<LoxResult>,
}

impl View for Interpreter {
    type V = StateV;

    closed spec fn view(&self) -> StateV {
        StateV { env: self.environment@, output: self.output.deep_view() }
    }
}

/// Applies a binary operator to two evaluated operands, per `eval_binop`.
fn apply_binop(op: &Token, a: Lit, b: Lit) -> (r: Result<Lit, LoxResult>)
    ensures
        lit_result_matches(r, eval_binop(op@, a@, b@)),
{
    match op.ttype {
        TokenType::Plus => match (a, b) {
            (Lit::Num(x), Lit::Num(y)) => Ok(Lit::Num(num_add(x, y))),
            (Lit::Str(x), Lit::Str(y)) => Ok(Lit::Str(x.concat(y.as_str()))),
            _ => Err(LoxResult::runtime_error(op.dup(), "Expected two numbers or two strings.")),
        },
        TokenType::Minus => match (a, b) {
            (Lit::Num(x), Lit::Num(y)) => Ok(Lit::Num(num_sub(x, y))),
            _ => Err(LoxResult::runtime_error(op.dup(), "Expected two numbers.")),
        },
        TokenType::Star => match (a, b) {
            (Lit::Num(x), Lit::Num(y)) => Ok(Lit::Num(num_mul(x, y))),
            _ => Err(LoxResult::runtime_error(op.dup(), "Expected two numbers.")),
        },
        TokenType::Slash => match (a, b) {
            (Lit::Num(x), Lit::Num(y)) => Ok(Lit::Num(num_div(x, y))),
            _ => Err(LoxResult::runtime_error(op.dup(), "Expected two numbers.")),
        },
        TokenType::Greater => match (a, b) {
            (Lit::Num(x), Lit::Num(y)) => Ok(Lit::Bool(num_gt(x, y))),
            _ => Err(LoxResult::runtime_error(op.dup(), "Expected two numbers.")),
        },
        TokenType::GreaterEqual => match (a, b) {
            (Lit::Num(x), Lit::Num(y)) => Ok(Lit::Bool(num_ge(x, y))),
            _ => Err(LoxResult::runtime_error(op.dup(), "Expected two numbers.")),
        },
        TokenType::Less => match (a, b) {
            (Lit::Num(x), Lit::Num(y)) => Ok(Lit::Bool(num_lt(x, y))),
            _ => Err(LoxResult::runtime_error(op.dup(), "Expected two numbers.")),
        },
        TokenType::LessEqual => match (a, b) {
            (Lit::Num(x), Lit::Num(y)) => Ok(Lit::Bool(num_le(x, y))),
            _ => Err(LoxResult::runtime_error(op.dup(), "Expected two numbers.")),
        },
        TokenType::EqualEqual => Ok(Lit::Bool(a.equals(&b))),
        TokenType::BangEqual => Ok(Lit::Bool(!a.equals(&b))),
        _ => Err(LoxResult::runtime_error(op.dup(), "Illegal expression.")),
    }
}

impl Interpreter {
    /// The environment always holds at least the global scope.
    pub closed spec fn wf(&self) -> bool {
        self.environment.wf()
    }

    /// The error that ended the last run, if one did.
    pub closed spec fn err_view(&self) -> Option<LoxResultV> {
        match self.error {
            Some(e) => Some(e@),
            None => None,
        }
    }

    /// A fresh interpreter: one empty global scope, no output, no error.
    pub fn new() -> (interp: Interpreter)
        ensures
            interp.wf(),
            interp@.env =~= seq![Map::<Seq<char>, LitV>::empty()],
            interp@.output =~= Seq::<Seq<char>>::empty(),
            interp.err_view() is None,
    {
        Interpreter { environment: Environment::new(), output: Vec::new(), error: None }
    }

    /// The lines printed so far, in program order.
    pub fn output(&self) -> (r: &Vec<String>)
        ensures
            r.deep_view() == self@.output,
    {
        &self.output
    }

    /// The error that ended the last run, if one did.
    pub fn error(&self) -> (r: &Option<LoxResult>)
        ensures
            match r {
                Some(e) => self.err_view() == Some(e@),
                None => self.err_view() is None,
            },
    {
        &self.error
    }

    /// Evaluates an expression against the live scope chain. Returns and
    /// mutates exactly what `eval` says; printed output is untouched.
    pub fn evaluate(&mut self, expr: &Expr) -> (r: Result<Lit, LoxResult>)
        requires
            old(self).wf(),
        ensures
            final(self).wf(),
            final(self)@.output == old(self)@.output,
            final(self).err_view() == old(self).err_view(),
            final(self)@.env == eval(*expr, old(self)@.env).0,
            lit_result_matches(r, eval(*expr, old(self)@.env).1),
        decreases *expr,
    {
        match expr {
            Expr::Literal(l) => match &l.value {
                Some(v) => Ok(v.dup()),
                None => Ok(Lit::Nil),
            },
            Expr::Grouping(g) => self.evaluate(&g.expression),
            Expr::Variable(v) => self.environment.get(&v.name),
            Expr::Assign(a) => {
                let value = self.evaluate(&a.value)?;
                match self.environment.assign(&a.name, value.dup()) {
                    Ok(_) => Ok(value),
                    Err(e) => Err(e),
                }
            },
            Expr::Logical(l) => {
                let left = self.evaluate(&l.left)?;
                if l.operator.is(TokenType::Or) {
                    if left.is_truthy() {
                        return Ok(left);
                    }
                } else {
                    if !left.is_truthy() {
                        return Ok(left);
                    }
                }
                self.evaluate(&l.right)
            },
            Expr::Unary(u) => {
                let right = self.evaluate(&u.right)?;
                match u.operator.ttype {
                    TokenType::Minus => match right {
                        Lit::Num(b) => Ok(Lit::Num(num_neg(b))),
                        _ => Ok(Lit::Nil),
                    },
                    TokenType::Bang => {
                        let t = right.is_truthy();
                        Ok(Lit::Bool(!t))
                    },
                    _ => Err(LoxResult::error(u.operator.line, "Unreachable code.")),
                }
            },
            Expr::Binary(b) => {
                let left = self.evaluate(&b.left)?;
                let right = self.evaluate(&b.right)?;
                apply_binop(&b.operator, left, right)
            },
            Expr::Call(c) => Err(
                LoxResult::runtime_error(c.paren.dup(), "Function calls are not supported."),
            ),
        }
    }

    /// Executes one statement under a step budget: `fuel` bounds how many
    /// loop iterations may still be taken. Returns `None` exactly when the
    /// budget ran out (`exec_stmt` is `None`); otherwise the environment
    /// and output move to the state `exec_stmt` names, and the returned
    /// error, if any, is the one it names.
    pub fn execute(&mut self, statement: &Stmt, fuel: u64) -> (r: Option<Result<(), LoxResult>>)
        requires
            old(self).wf(),
        ensures
            final(self).wf(),
            final(self).err_view() == old(self).err_view(),
            match exec_stmt(*statement, old(self)@, fuel as nat) {
                Some((st2, e)) => r matches Some(rr) && final(self)@ == st2 && res_view(rr) == e,
                None => r is None,
            },
        decreases fuel, *statement,
    {
        let ghost st0 = self@;
        match statement {
            Stmt::Expression(es) => {
                match self.evaluate(&es.expression) {
                    Ok(_) => {
                        proof {
                            assert(self@ =~= StateV {
                                env: eval(es.expression, st0.env).0,
                                output: st0.output,
                            });
                        }
                        Some(Ok(()))
                    },
                    Err(e) => {
                        proof {
                            assert(self@ =~= StateV {
                                env: eval(es.expression, st0.env).0,
                                output: st0.output,
                            });
                        }
                        Some(Err(e))
                    },
                }
            },
            Stmt::Print(p) => {
                match self.evaluate(&p.expression) {
                    Ok(v) => {
                        let line = v.render();
                        self.output.push(line);
                        proof {
                            assert(self@ =~= StateV {
                                env: eval(p.expression, st0.env).0,
                                output: st0.output.push(
                                    spec_render(eval(p.expression, st0.env).1->Ok_0),
                                ),
                            });
                        }
                        Some(Ok(()))
                    },
                    Err(e) => {
                        proof {
                            assert(self@ =~= StateV {
                                env: eval(p.expression, st0.env).0,
                                output: st0.output,
                            });
                        }
                        Some(Err(e))
                    },
                }
            },
            Stmt::Var(vs) => {
                match &vs.initializer {
                    Some(init) => {
                        match self.evaluate(init) {
                            Ok(v) => {
                                self.environment.define(vs.name.lexeme.as_str(), v);
                                proof {
                                    assert(self@ =~= StateV {
                                        env: env_define(
                                            eval(*init, st0.env).0,
                                            vs.name.lexeme@,
                                            eval(*init, st0.env).1->Ok_0,
                                        ),
                                        output: st0.output,
                                    });
                                }
                                Some(Ok(()))
                            },
                            Err(e) => {
                                proof {
                                    assert(self@ =~= StateV {
                                        env: eval(*init, st0.env).0,
                                        output: st0.output,
                                    });
                                }
                                Some(Err(e))
                            },
                        }
                    },
                    None => {
                        self.environment.define(vs.name.lexeme.as_str(), Lit::Nil);
                        proof {
                            assert(self@ =~= StateV {
                                env: env_define(st0.env, vs.name.lexeme@, LitV::Nil),
                                output: st0.output,
                            });
                        }
                        Some(Ok(()))
                    },
                }
            },
            Stmt::Block(b) => {
                self.environment.push_scope();
                let ghost stp = self@;
                proof {
                    assert(stp =~= StateV { env: st0.env.push(Map::empty()), output: st0.output });
                }
                let ghost ss = b.statements@;
                let n = b.statements.len();
                let mut i: usize = 0;
                let mut out: Result<(), LoxResult> = Ok(());
                while i < n && out.is_ok()
                    invariant
                        self.wf(),
                        self.err_view() == old(self).err_view(),
                        i <= n,
                        n == ss.len(),
                        ss == b.statements@,
                        *statement == Stmt::Block(*b),
                        st0 == old(self)@,
                        stp == (StateV { env: st0.env.push(Map::empty()), output: st0.output }),
                        match out {
                            Ok(_) => exec_stmts(ss, 0, stp, fuel as nat) == exec_stmts(
                                ss,
                                i as int,
                                self@,
                                fuel as nat,
                            ),
                            Err(e) => exec_stmts(ss, 0, stp, fuel as nat) == Some(
                                (self@, Some(e@)),
                            ),
                        },
                    decreases n - i + (if out is Ok { 1int } else { 0int }),
                {
                    let ghost st_i = self@;
                    proof {
                        assert(decreases_to!(*statement => statement->Block_0.statements));
                        assert(statement->Block_0 == *b);
                        assert(decreases_to!(b.statements => b.statements@));
                        assert(decreases_to!(b.statements@ => b.statements@[i as int]));
                    }
                    match self.execute(&b.statements[i], fuel) {
                        None => {
                            proof {
                                assert(exec_stmts(ss, i as int, st_i, fuel as nat) is None);
                            }
                            return None;
                        },
                        Some(Ok(_)) => {
                            proof {
                                assert(exec_stmts(ss, i as int, st_i, fuel as nat) == exec_stmts(
                                    ss,
                                    i as int + 1,
                                    self@,
                                    fuel as nat,
                                ));
                            }
                            i = i + 1;
                        },
                        Some(Err(e)) => {
                            proof {
                                assert(exec_stmts(ss, i as int, st_i, fuel as nat) == Some(
                                    (self@, Some(e@)),
                                ));
                            }
                            out = Err(e);
                        },
                    }
                }
                proof {
                    if out is Ok {
                        assert(exec_stmts(ss, n as int, self@, fuel as nat) == Some(
                            (self@, None::<LoxResultV>),
                        ));
                    }
                }
                let ghost stb = self@;
                proof {
                    lemma_exec_stmts_env_len(ss, 0, stp, fuel as nat);
                }
                self.environment.pop_scope();
                proof {
                    assert(self@ =~= StateV { env: stb.env.drop_last(), output: stb.output });
                    assert(exec_stmt(*statement, st0, fuel as nat) == Some(
                        (self@, res_view(out)),
                    ));
                }
                Some(out)
            },
            Stmt::If(i) => {
                match self.evaluate(&i.condition) {
                    Err(e) => {
                        proof {
                            assert(self@ =~= StateV {
                                env: eval(i.condition, st0.env).0,
                                output: st0.output,
                            });
                        }
                        Some(Err(e))
                    },
                    Ok(v) => {
                        proof {
                            assert(self@ =~= StateV {
                                env: eval(i.condition, st0.env).0,
                                output: st0.output,
                            });
                        }
                        if v.is_truthy() {
                            self.execute(&i.then_branch, fuel)
                        } else {
                            match &i.else_branch {
                                Some(eb) => self.execute(eb, fuel),
                                None => Some(Ok(())),
                            }
                        }
                    },
                }
            },
            Stmt::While(w) => {
                let ghost stmt_s = *statement;
                let mut f = fuel;
                loop
                    invariant
                        self.wf(),
                        self.err_view() == old(self).err_view(),
                        f <= fuel,
                        st0 == old(self)@,
                        stmt_s == *statement,
                        stmt_s == Stmt::While(*w),
                        exec_stmt(stmt_s, st0, fuel as nat) == exec_stmt(stmt_s, self@, f as nat),
                    decreases f,
                {
                    if f == 0 {
                        return None;
                    }
                    let ghost st_h = self@;
                    match self.evaluate(&w.condition) {
                        Err(e) => {
                            proof {
                                assert(self@ =~= StateV {
                                    env: eval(w.condition, st_h.env).0,
                                    output: st_h.output,
                                });
                                assert(exec_stmt(stmt_s, st_h, f as nat) == Some(
                                    (self@, Some(e@)),
                                ));
                            }
                            return Some(Err(e));
                        },
                        Ok(v) => {
                            proof {
                                assert(self@ =~= StateV {
                                    env: eval(w.condition, st_h.env).0,
                                    output: st_h.output,
                                });
                            }
                            if !v.is_truthy() {
                                proof {
                                    assert(exec_stmt(stmt_s, st_h, f as nat) == Some(
                                        (self@, None::<LoxResultV>),
                                    ));
                                }
                                return Some(Ok(()));
                            }
                            let ghost st1 = self@;
                            match self.execute(&w.body, f - 1) {
                                None => {
                                    return None;
                                },
                                Some(Err(e)) => {
                                    proof {
                                        assert(exec_stmt(stmt_s, st_h, f as nat) == Some(
                                            (self@, Some(e@)),
                                        ));
                                    }
                                    return Some(Err(e));
                                },
                                Some(Ok(_)) => {
                                    proof {
                                        assert(exec_stmt(stmt_s, st_h, f as nat) == exec_stmt(
                                            stmt_s,
                                            self@,
                                            (f - 1) as nat,
                                        ));
                                    }
                                    f = f - 1;
                                },
                            }
                        },
                    }
                }
            },
            Stmt::Function(fs) => {
                let e = LoxResult::runtime_error(
                    fs.name.dup(),
                    "Function declarations are not supported.",
                );
                Some(Err(e))
            },
        }
    }

    /// Runs a program: executes the statements in order and stops at the
    /// first runtime error, which is retained for reporting. Returns true
    /// exactly when every statement succeeded. The step budget is the
    /// largest expressible one; a run that exhausts it is abandoned and
    /// reported as failed.
    pub fn interpret(&mut self, statements: &Vec<Stmt>) -> (success: bool)
        requires
            old(self).wf(),
        ensures
            final(self).wf(),
            match exec_stmts(statements@, 0, old(self)@, u64::MAX as nat) {
                Some((st2, e)) => final(self)@ == st2 && final(self).err_view() == e && success
                    == (e is None),
                None => !success,
            },
    {
        self.error = None;
        let ghost st0 = self@;
        let ghost ss = statements@;
        let n = statements.len();
        let mut i: usize = 0;
        while i < n
            invariant
                self.wf(),
                self.err_view() is None,
                i <= n,
                n == ss.len(),
                ss == statements@,
                st0 == old(self)@,
                exec_stmts(ss, 0, st0, u64::MAX as nat) == exec_stmts(
                    ss,
                    i as int,
                    self@,
                    u64::MAX as nat,
                ),
            decreases n - i,
        {
            let ghost st_i = self@;
            match self.execute(&statements[i], u64::MAX) {
                None => {
                    proof {
                        assert(exec_stmts(ss, i as int, st_i, u64::MAX as nat) is None);
                    }
                    self.error = Some(
                        LoxResult::error(0, "Execution exceeded the loop budget."),
                    );
                    return false;
                },
                Some(Ok(_)) => {
                    proof {
                        assert(exec_stmts(ss, i as int, st_i, u64::MAX as nat) == exec_stmts(
                            ss,
                            i as int + 1,
                            self@,
                            u64::MAX as nat,
                        ));
                    }
                    i = i + 1;
                },
                Some(Err(e)) => {
                    proof {
                        assert(exec_stmts(ss, i as int, st_i, u64::MAX as nat) == Some(
                            (self@, Some(e@)),
                        ));
                    }
                    self.error = Some(e);
                    return false;
                },
            }
        }
        proof {
            assert(exec_stmts(ss, n as int, self@, u64::MAX as nat) == Some(
                (self@, None::<LoxResultV>),
            ));
        }
        true
    }
}

} // verus!
