//! Runtime values.

use vstd::prelude::*;
use vstd::string::StringExecFns;
use crate::num::{
    eq_bits, num_eq, num_render, render_bits,
};

verus! {

/// A runtime value of the language: a number (an IEEE-754 binary64 bit
/// pattern), a string, a boolean, or nil. Equality between values of
/// different variants is always false and never an error.
#[derive(Debug, Clone, PartialEq)]
pub enum Lit {
    Num(u64),
    Str(String),
    Bool(bool),
    Nil,
}

/// The mathematical shape of a runtime value.
pub enum LitV {
    Num(u64),
    Str(Seq<char>),
    Bool(bool),
    Nil,
}

impl View for Lit {
    type V = LitV;

    open spec fn view(&self) -> LitV {
        match self {
            Lit::Num(b) => LitV::Num(*b),
            Lit::Str(s) => LitV::Str(s@),
            Lit::Bool(b) => LitV::Bool(*b),
            Lit::Nil => LitV::Nil,
        }
    }
}

/// Every value is truthy except boolean false and nil; in particular the
/// number zero and the empty string are truthy.
pub open spec fn spec_truthy(v: LitV) -> bool {
    !(v == LitV::Bool(false) || v == LitV::Nil)
}

/// Variant-aware equality: numbers compare by the IEEE-754 rule, strings
/// lexically, booleans by value, nil equals only nil, and values of
/// different variants are never equal.
pub open spec fn spec_lit_eq(a: LitV, b: LitV) -> bool {
    match (a, b) {
        (LitV::Num(x), LitV::Num(y)) => eq_bits(x, y),
        (LitV::Str(x), LitV::Str(y)) => x == y,
        (LitV::Bool(x), LitV::Bool(y)) => x == y,
        (LitV::Nil, LitV::Nil) => true,
        _ => false,
    }
}

/// The rendering used by `print`: numbers in decimal, booleans as
/// `true`/`false`, nil as `nil`, and strings literally.
pub open spec fn spec_render(v: LitV) -> Seq<char> {
    match v {
        LitV::Num(b) => render_bits(b),
        LitV::Str(s) => s,
        LitV::Bool(b) => if b {
            "true"@
        } else {
            "false"@
        },
        LitV::Nil => "nil"@,
    }
}

/// The rendering used when a value is quoted back inside a diagnostic or a
/// tree dump: like `spec_render`, except that strings keep their quotes.
pub open spec fn spec_show(v: LitV) -> Seq<char> {
    match v {
        LitV::Str(s) => "\""@ + s + "\""@,
        _ => spec_render(v),
    }
}

impl Lit {
    /// Truthiness of a value: everything is truthy except `false` and nil.
    pub fn is_truthy(&self) -> (r: bool)
        ensures
            r == spec_truthy(self@),
    {
        match self {
            Lit::Bool(false) => false,
            Lit::Nil => false,
            _ => true,
        }
    }

    /// Variant-aware equality, per `spec_lit_eq`; defined for every pair of
    /// values and never an error.
    pub fn equals(&self, other: &Lit) -> (r: bool)
        ensures
            r == spec_lit_eq(self@, other@),
    {
        match (self, other) {
            (Lit::Num(a), Lit::Num(b)) => num_eq(*a, *b),
            (Lit::Str(a), Lit::Str(b)) => a.eq(b),
            (Lit::Bool(a), Lit::Bool(b)) => *a == *b,
            (Lit::Nil, Lit::Nil) => true,
            _ => false,
        }
    }

    /// A copy of this value, equal to the original.
    pub fn dup(&self) -> (r: Lit)
        ensures
            r == *self,
    {
        match self {
            Lit::Num(b) => Lit::Num(*b),
            Lit::Str(s) => Lit::Str(s.clone()),
            Lit::Bool(b) => Lit::Bool(*b),
            Lit::Nil => Lit::Nil,
        }
    }

    /// The `print` rendering of this value.
    pub fn render(&self) -> (r: String)
        ensures
            r@ == spec_render(self@),
    {
        match self {
            Lit::Num(b) => num_render(*b),
            Lit::Str(s) => s.clone(),
            Lit::Bool(b) => if *b {
                String::from_str("true")
            } else {
                String::from_str("false")
            },
            Lit::Nil => String::from_str("nil"),
        }
    }

    /// The quoted rendering of this value.
    pub fn show(&self) -> (r: String)
        ensures
            r@ == spec_show(self@),
    {
        match self {
            Lit::Str(s) => {
                let mut out = String::from_str("\"");
                out.append(s.as_str());
                out.append("\"");
                out
            },
            _ => self.render(),
        }
    }
}

} // verus!
