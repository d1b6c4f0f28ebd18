//! A parenthesised dump of expression trees, useful when inspecting what
//! the parser built: each operator node prints as `(lexeme operands...)`,
//! groupings as `(group ...)`, and literals in their quoted rendering.

use vstd::prelude::*;
use vstd::string::StringExecFns;
use crate::error::LoxResult;
use crate::expr::Expr;
use crate::lit::spec_show;

verus! {

broadcast use vstd::std_specs::vec::group_vec_axioms, vstd::seq::group_seq_axioms;

/// The exact text `AstPrinter` produces for an expression.
pub open spec fn print_expr(e: Expr) -> Seq<char>
    decreases e, 0int,
{
    match e {
        Expr::Assign(a) => "(= "@ + a.name.lexeme@ + " "@ + print_expr(*a.value) + ")"@,
        Expr::Binary(b) => "("@ + b.operator.lexeme@ + " "@ + print_expr(*b.left) + " "@
            + print_expr(*b.right) + ")"@,
        Expr::Call(c) => "(call "@ + print_expr(*c.callee) + print_args(c.arguments@, 0) + ")"@,
        Expr::Grouping(g) => "(group "@ + print_expr(*g.expression) + ")"@,
        Expr::Literal(l) => match l.value {
            Some(v) => spec_show(v@),
            None => "nil"@,
        },
        Expr::Logical(o) => "("@ + o.operator.lexeme@ + " "@ + print_expr(*o.left) + " "@
            + print_expr(*o.right) + ")"@,
        Expr::Unary(u) => "("@ + u.operator.lexeme@ + " "@ + print_expr(*u.right) + ")"@,
        Expr::Variable(v) => v.name.lexeme@,
    }
}

/// The rendered arguments from index `i` on, each preceded by a space.
pub open spec fn print_args(args: Seq<Expr>, i: int) -> Seq<char>
    decreases args, args.len() - i,
{
    if i < 0 || i >= args.len() {
        Seq::empty()
    } else {
        " "@ + print_expr(args[i]) + print_args(args, i + 1)
    }
}

/// Prints expression trees; stateless.
pub struct AstPrinter;

fn render_expr(expr: &Expr) -> (out: String)
    ensures
        out@ == print_expr(*expr),
    decreases *expr, 0int,
{
    match expr {
        Expr::Assign(a) => {
            let mut out = String::from_str("(= ");
            out.append(a.name.lexeme.as_str());
            out.append(" ");
            out.append(render_expr(&a.value).as_str());
            out.append(")");
            proof {
                assert(out@ =~= print_expr(*expr));
            }
            out
        },
        Expr::Binary(b) => {
            let mut out = String::from_str("(");
            out.append(b.operator.lexeme.as_str());
            out.append(" ");
            out.append(render_expr(&b.left).as_str());
            out.append(" ");
            out.append(render_expr(&b.right).as_str());
            out.append(")");
            proof {
                assert(out@ =~= print_expr(*expr));
            }
            out
        },
        Expr::Call(c) => {
            let mut out = String::from_str("(call ");
            out.append(render_expr(&c.callee).as_str());
            let n = c.arguments.len();
            let mut i: usize = 0;
            while i < n
                invariant
                    i <= n,
                    n == c.arguments@.len(),
                    *expr == Expr::Call(*c),
                    out@ + print_args(c.arguments@, i as int) == "(call "@ + print_expr(
                        *c.callee,
                    ) + print_args(c.arguments@, 0),
                decreases n - i,
            {
                proof {
                    assert(decreases_to!(*expr => expr->Call_0.arguments));
                    assert(decreases_to!(c.arguments => c.arguments@));
                    assert(decreases_to!(c.arguments@ => c.arguments@[i as int]));
                }
                out.append(" ");
                out.append(render_expr(&c.arguments[i]).as_str());
                proof {
                    assert(out@ + print_args(c.arguments@, i + 1) =~= "(call "@ + print_expr(
                        *c.callee,
                    ) + print_args(c.arguments@, 0));
                }
                i = i + 1;
            }
            out.append(")");
            proof {
                assert(out@ =~= print_expr(*expr));
            }
            out
        },
        Expr::Grouping(g) => {
            let mut out = String::from_str("(group ");
            out.append(render_expr(&g.expression).as_str());
            out.append(")");
            proof {
                assert(out@ =~= print_expr(*expr));
            }
            out
        },
        Expr::Literal(l) => match &l.value {
            Some(v) => v.show(),
            None => String::from_str("nil"),
        },
        Expr::Logical(o) => {
            let mut out = String::from_str("(");
            out.append(o.operator.lexeme.as_str());
            out.append(" ");
            out.append(render_expr(&o.left).as_str());
            out.append(" ");
            out.append(render_expr(&o.right).as_str());
            out.append(")");
            proof {
                assert(out@ =~= print_expr(*expr));
            }
            out
        },
        Expr::Unary(u) => {
            let mut out = String::from_str("(");
            out.append(u.operator.lexeme.as_str());
            out.append(" ");
            out.append(render_expr(&u.right).as_str());
            out.append(")");
            proof {
                assert(out@ =~= print_expr(*expr));
            }
            out
        },
        Expr::Variable(v) => {
            let mut out = String::new();
            out.append(v.name.lexeme.as_str());
            out
        },
    }
}

impl AstPrinter {
    /// The parenthesised rendering of `expr`; never fails.
    pub fn format(&self, expr: &Expr) -> (r: Result<String, LoxResult>)
        ensures
            r matches Ok(s) && s@ == print_expr(*expr),
    {
        Ok(render_expr(expr))
    }
}

} // verus!
