//! Lexically scoped variable environments.
//!
//! The scope chain is a stack: one global scope at the bottom, one scope
//! pushed per block entry and popped on exit. A scope is an association
//! list from names to values in which the latest entry for a name wins;
//! its mathematical content is the finite map it denotes. `define` writes
//! the innermost scope only, while `get` and `assign` walk outward until a
//! scope binds the name, so shadowing is by construction and assignment
//! never creates a binding.

use vstd::prelude::*;
use vstd::string::StringExecFns;
use crate::error::{LoxResult, LoxResultV};
use crate::lit::{Lit, LitV};
use crate::token::Token;

verus! {

/// The map a scope's association list denotes: later entries override
/// earlier ones.
pub open spec fn scope_map(s: Seq<(String, Lit)>) -> Map<Seq<char>, LitV>
    decreases s.len(),
{
    if s.len() == 0 {
        Map::empty()
    } else {
        scope_map(s.drop_last()).insert(s.last().0@, s.last().1@)
    }
}

/// Last-match lookup in one scope's association list.
pub open spec fn assoc_lookup(s: Seq<(String, Lit)>, n: Seq<char>) -> Option<LitV>
    decreases s.len(),
{
    if s.len() == 0 {
        None
    } else if s.last().0@ == n {
        Some(s.last().1@)
    } else {
        assoc_lookup(s.drop_last(), n)
    }
}

/// The mathematical shape of a scope chain: innermost scope last.
pub type EnvV = Seq<Map<Seq<char>, LitV>>;

/// Resolution of `n`, walking from the innermost scope outward.
pub open spec fn env_lookup(env: EnvV, n: Seq<char>) -> Option<LitV>
    decreases env.len(),
{
    if env.len() == 0 {
        None
    } else if env.last().contains_key(n) {
        Some(env.last()[n])
    } else {
        env_lookup(env.drop_last(), n)
    }
}

/// Assignment to an existing binding: overwrites `n` in the innermost
/// scope that binds it, or yields `None` when no scope does.
pub open spec fn env_assign(env: EnvV, n: Seq<char>, v: LitV) -> Option<EnvV>
    decreases env.len(),
{
    if env.len() == 0 {
        None
    } else if env.last().contains_key(n) {
        Some(env.drop_last().push(env.last().insert(n, v)))
    } else {
        match env_assign(env.drop_last(), n, v) {
            Some(e) => Some(e.push(env.last())),
            None => None,
        }
    }
}

/// Declaration: inserts or overwrites `n` in the innermost scope only.
pub open spec fn env_define(env: EnvV, n: Seq<char>, v: LitV) -> EnvV
    recommends
        env.len() > 0,
{
    env.drop_last().push(env.last().insert(n, v))
}

/// A successful assignment never changes how many scopes are chained.
pub proof fn lemma_env_assign_len(env: EnvV, n: Seq<char>, v: LitV)
    ensures
        env_assign(env, n, v) matches Some(e2) ==> e2.len() == env.len(),
    decreases env.len(),
{
    if env.len() > 0 && !env.last().contains_key(n) {
        lemma_env_assign_len(env.drop_last(), n, v);
    }
}

proof fn lemma_scope_map_push(s: Seq<(String, Lit)>, e: (String, Lit))
    ensures
        scope_map(s.push(e)) == scope_map(s).insert(e.0@, e.1@),
{
    assert(s.push(e).drop_last() =~= s);
}

/// `assoc_lookup` computes exactly the denoted map's content at a key.
proof fn lemma_assoc_scope_map(s: Seq<(String, Lit)>, n: Seq<char>)
    ensures
        assoc_lookup(s, n) == (if scope_map(s).contains_key(n) {
            Some(scope_map(s)[n])
        } else {
            None
        }),
    decreases s.len(),
{
    if s.len() > 0 {
        lemma_assoc_scope_map(s.drop_last(), n);
    }
}

proof fn lemma_env_assign_none(env: EnvV, n: Seq<char>, v: LitV)
    requires
        forall|i: int| 0 <= i < env.len() ==> !(#[trigger] env[i]).contains_key(n),
    ensures
        env_assign(env, n, v) is None,
    decreases env.len(),
{
    if env.len() > 0 {
        assert(env.last() == env[env.len() - 1]);
        lemma_env_assign_none(env.drop_last(), n, v);
    }
}

proof fn lemma_env_assign_hit(env: EnvV, n: Seq<char>, v: LitV, j: int)
    requires
        0 <= j < env.len(),
        env[j].contains_key(n),
        forall|i: int| j < i < env.len() ==> !(#[trigger] env[i]).contains_key(n),
    ensures
        env_assign(env, n, v) == Some(env.update(j, env[j].insert(n, v))),
    decreases env.len(),
{
    if j == env.len() - 1 {
        assert(env.drop_last().push(env.last().insert(n, v)) =~= env.update(
            j,
            env[j].insert(n, v),
        ));
    } else {
        assert(env.last() == env[env.len() - 1]);
        lemma_env_assign_hit(env.drop_last(), n, v, j);
        assert(env_assign(env.drop_last(), n, v) == Some(
            env.drop_last().update(j, env[j].insert(n, v)),
        ));
        assert(env.drop_last().update(j, env[j].insert(n, v)).push(env.last()) =~= env.update(
            j,
            env[j].insert(n, v),
        ));
    }
}

/// Declaring in the innermost scope leaves every enclosing scope exactly
/// as it was: shadowing never overwrites an outer binding, and the
/// shadowed binding reappears once the inner scope is popped.
pub proof fn lemma_define_shadows(env: EnvV, n: Seq<char>, v: LitV)
    requires
        env.len() > 0,
    ensures
        env_define(env, n, v).len() == env.len(),
        forall|i: int| 0 <= i < env.len() - 1 ==> env_define(env, n, v)[i] == env[i],
        env_define(env, n, v).last() == env.last().insert(n, v),
        env_define(env, n, v).drop_last() =~= env.drop_last(),
{
}

/// The chain of scopes, innermost last. There is always at least one
/// scope: the global one.
pub struct Environment {
    scopes: Vec<Vec<(String, Lit)>>,
}

impl View for Environment {
    type V = EnvV;

    closed spec fn view(&self) -> EnvV {
        self.scopes@.map_values(|s: Vec<(String, Lit)>| scope_map(s@))
    }
}

/// Last-match search of one scope, returning a copy of the bound value.
fn scope_find(sc: &Vec<(String, Lit)>, n: &String) -> (r: Option<Lit>)
    ensures
        match assoc_lookup(sc@, n@) {
            Some(v) => r matches Some(l) && l@ == v,
            None => r is None,
        },
{
    let mut k = sc.len();
    proof {
        assert(sc@.subrange(0, sc@.len() as int) =~= sc@);
    }
    while k > 0
        invariant
            k <= sc@.len(),
            assoc_lookup(sc@.subrange(0, k as int), n@) == assoc_lookup(sc@, n@),
        decreases k,
    {
        k = k - 1;
        proof {
            assert(sc@.subrange(0, k + 1).drop_last() =~= sc@.subrange(0, k as int));
            assert(sc@.subrange(0, k + 1).last() == sc@[k as int]);
        }
        let entry = &sc[k];
        if entry.0.eq(n) {
            return Some(entry.1.dup());
        }
    }
    proof {
        assert(sc@.subrange(0, 0) =~= Seq::<(String, Lit)>::empty());
    }
    None
}

impl Environment {
    /// There is always at least the global scope.
    pub open spec fn wf(&self) -> bool {
        self@.len() >= 1
    }

    /// A fresh chain holding one empty global scope.
    pub fn new() -> (env: Environment)
        ensures
            env.wf(),
            env@ =~= seq![Map::<Seq<char>, LitV>::empty()],
    {
        let mut scopes: Vec<Vec<(String, Lit)>> = Vec::new();
        scopes.push(Vec::new());
        Environment { scopes }
    }

    /// Enters a nested scope chained to the current one.
    pub fn push_scope(&mut self)
        requires
            old(self).wf(),
        ensures
            final(self).wf(),
            final(self)@ =~= old(self)@.push(Map::<Seq<char>, LitV>::empty()),
    {
        self.scopes.push(Vec::new());
    }

    /// Leaves the innermost scope; its bindings become invisible.
    pub fn pop_scope(&mut self)
        requires
            old(self).wf(),
            old(self)@.len() > 1,
        ensures
            final(self).wf(),
            final(self)@ =~= old(self)@.drop_last(),
    {
        let _ = self.scopes.pop();
    }

    /// Inserts or overwrites a binding in the innermost scope only; always
    /// succeeds.
    pub fn define(&mut self, name: &str, value: Lit)
        requires
            old(self).wf(),
        ensures
            final(self).wf(),
            final(self)@ =~= env_define(old(self)@, name@, value@),
    {
        let j = self.scopes.len() - 1;
        let entry = (name.to_owned(), value);
        proof {
            lemma_scope_map_push(self.scopes@[j as int]@, entry);
        }
        let top = &mut self.scopes[j];
        top.push(entry);
        proof {
            assert(self@ =~= env_define(old(self)@, name@, value@));
        }
    }

    /// Resolves `name` by walking outward; an unbound name is an
    /// Undefined-Variable runtime error carrying the token.
    pub fn get(&self, name: &Token) -> (r: Result<Lit, LoxResult>)
        requires
            self.wf(),
        ensures
            match env_lookup(self@, name.lexeme@) {
                Some(v) => r matches Ok(l) && l@ == v,
                None => r matches Err(e) && e@ == (LoxResultV::RuntimeError {
                    token: name@,
                    message: "Undefined variable '"@ + name.lexeme@ + "'."@,
                }),
            },
    {
        let mut j = self.scopes.len();
        proof {
            assert(self@.subrange(0, self@.len() as int) =~= self@);
        }
        while j > 0
            invariant
                self.wf(),
                j <= self@.len(),
                env_lookup(self@.subrange(0, j as int), name.lexeme@) == env_lookup(
                    self@,
                    name.lexeme@,
                ),
            decreases j,
        {
            j = j - 1;
            proof {
                assert(self@.subrange(0, j + 1).drop_last() =~= self@.subrange(0, j as int));
                assert(self@.subrange(0, j + 1).last() == self@[j as int]);
                lemma_assoc_scope_map(self.scopes@[j as int]@, name.lexeme@);
            }
            match scope_find(&self.scopes[j], &name.lexeme) {
                Some(l) => {
                    return Ok(l);
                },
                None => {},
            }
        }
        proof {
            assert(self@.subrange(0, 0) =~= Seq::<Map<Seq<char>, LitV>>::empty());
        }
        let mut msg = String::from_str("Undefined variable '");
        msg.append(name.lexeme.as_str());
        msg.append("'.");
        Err(LoxResult::runtime_error(name.dup(), msg.as_str()))
    }

    /// Overwrites the innermost existing binding of `name`; assignment to
    /// an unbound name is an Undefined-Variable runtime error and leaves
    /// the chain unchanged.
    pub fn assign(&mut self, name: &Token, value: Lit) -> (r: Result<(), LoxResult>)
        requires
            old(self).wf(),
        ensures
            final(self).wf(),
            match env_assign(old(self)@, name.lexeme@, value@) {
                Some(env2) => r is Ok && final(self)@ =~= env2,
                None => final(self)@ == old(self)@ && (r matches Err(e) && e@
                    == (LoxResultV::RuntimeError {
                    token: name@,
                    message: "Undefined variable "@ + name.lexeme@ + "."@,
                })),
            },
    {
        let mut j = self.scopes.len();
        while j > 0
            invariant
                self.wf(),
                self == old(self),
                j <= self@.len(),
                forall|i: int|
                    j <= i < self@.len() ==> !(#[trigger] self@[i]).contains_key(name.lexeme@),
            decreases j,
        {
            j = j - 1;
            proof {
                lemma_assoc_scope_map(self.scopes@[j as int]@, name.lexeme@);
            }
            let found = scope_find(&self.scopes[j], &name.lexeme).is_some();
            if found {
                let entry = (String::from_str(name.lexeme.as_str()), value);
                proof {
                    lemma_scope_map_push(self.scopes@[j as int]@, entry);
                    lemma_env_assign_hit(self@, name.lexeme@, entry.1@, j as int);
                }
                let sc = &mut self.scopes[j];
                sc.push(entry);
                proof {
                    assert(self@ =~= old(self)@.update(
                        j as int,
                        old(self)@[j as int].insert(name.lexeme@, value@),
                    ));
                }
                return Ok(());
            }
        }
        proof {
            lemma_env_assign_none(self@, name.lexeme@, value@);
        }
        let mut msg = String::from_str("Undefined variable ");
        msg.append(name.lexeme.as_str());
        msg.append(".");
        Err(LoxResult::runtime_error(name.dup(), msg.as_str()))
    }
}

} // verus!
