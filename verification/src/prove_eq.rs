//! The equality judgment.
//!
//! Two parameters are equal where they are the same term, or where one
//! of them is an existential variable that takes the other for its
//! value. Each rule that applies gives its own result:
//!
//! * reflexive: the two sides are the same term;
//! * left: the left side is an existential variable whose kind is that
//!   of the right side, and the right side does not mention it; the
//!   variable takes the right side for its value;
//! * right: the same with the sides exchanged.

use vstd::prelude::*;
use crate::constraints::{Constraints, ConstraintsView};
use crate::decls::Decls;
use crate::env::{contains_variable, Env, EnvView};
use crate::grammar::{Lt, Parameter, ParameterKind, Relation, Ty, Variable, Wcs};
use crate::proven::{insert, no_repeats, results};
use crate::renaming::lemma_sides_bound;
use crate::substitution::{as_variable, can_bind};

verus! {

/// The result in `env` that gives the variable `v` the value `p`.
pub open spec fn binding(env: EnvView, v: Variable, p: Parameter) -> ConstraintsView {
    ConstraintsView { env, known_true: true, substitution: seq![(v, p)] }
}

/// `c` is a result of proving that `a` equals `b` in `env`.
pub open spec fn proves_eq(env: EnvView, a: Parameter, b: Parameter, c: ConstraintsView) -> bool {
    ||| (a == b && c == ConstraintsView::none(env))
    ||| (can_bind(a, b) && c == binding(env, as_variable(a).unwrap(), b))
    ||| (can_bind(b, a) && c == binding(env, as_variable(b).unwrap(), a))
}

/// The variable that a parameter is, where it is one whose kind is that
/// of the parameter.
pub fn variable_of(p: &Parameter) -> (v: Option<Variable>)
    ensures
        v == as_variable(*p),
{
    match p {
        Parameter::Lt(Lt::Var(v)) => match v.kind {
            ParameterKind::Lt => Some(*v),
            ParameterKind::Ty => None,
        },
        Parameter::Ty(Ty::Var(v)) => match v.kind {
            ParameterKind::Ty => Some(*v),
            ParameterKind::Lt => None,
        },
        _ => None,
    }
}

/// Whether `a` is an existential variable that can take `b` for its
/// value.
pub fn may_bind(a: &Parameter, b: &Parameter) -> (r: bool)
    ensures
        r == can_bind(*a, *b),
{
    let same_kind = match a {
        Parameter::Lt(_) => match b {
            Parameter::Lt(_) => true,
            Parameter::Ty(_) => false,
        },
        Parameter::Ty(_) => match b {
            Parameter::Lt(_) => false,
            Parameter::Ty(_) => true,
        },
    };
    match variable_of(a) {
        None => false,
        Some(v) => {
            let mut fv: Vec<Variable> = Vec::new();
            b.collect_free_variables(&mut fv);
            assert(fv@ =~= b.spec_free_variables());
            v.is_existential() && same_kind && !contains_variable(&fv, v)
        },
    }
}

/// The result in `env` that gives the variable that `a` is the value
/// `b`.
fn bind(env: &Env, a: &Parameter, b: &Parameter) -> (c: Constraints)
    requires
        can_bind(*a, *b),
        env@.binds(a.spec_free_variables()),
        env@.binds(b.spec_free_variables()),
    ensures
        c@ == binding(env@, as_variable(*a).unwrap(), *b),
        c@.wf(),
{
    let v = match variable_of(a) {
        Some(v) => v,
        None => Variable::existential(ParameterKind::Lt, 0),
    };
    let mut substitution: Vec<(Variable, Parameter)> = Vec::new();
    substitution.push((v, b.clone()));
    assert(substitution@ =~= seq![(v, *b)]);
    assert(a.spec_free_variables()[0] == v);
    Constraints::from_parts(env.clone(), true, substitution)
}

/// Every way in which `a` equals `b` in `env`, each once.
pub fn prove_eq(
    _decls: &Decls,
    env: &Env,
    _assumptions: &Wcs,
    a: &Parameter,
    b: &Parameter,
) -> (out: Vec<Constraints>)
    requires
        env@.encloses_relation(Relation::Equals(*a, *b)),
    ensures
        no_repeats(out@),
        forall|c: ConstraintsView| results(out@).contains(c) <==> proves_eq(env@, *a, *b, c),
        forall|i: int| 0 <= i < out@.len() ==> (#[trigger] out@[i])@.is_valid_extension_of(env@),
{
    proof {
        lemma_sides_bound(env@.variables, Relation::Equals(*a, *b));
    }
    let _ = env.pending();
    let mut out: Vec<Constraints> = Vec::new();
    assert(results(out@) =~= Set::<ConstraintsView>::empty());
    // reflexive
    if a.same(b) {
        insert(&mut out, Constraints::none(env.clone()));
    }
    // an existential variable on the left takes the right side
    if may_bind(a, b) {
        insert(&mut out, bind(env, a, b));
    }
    // an existential variable on the right takes the left side
    if may_bind(b, a) {
        insert(&mut out, bind(env, b, a));
    }
    proof {
        assert forall|i: int| 0 <= i < out@.len() implies (#[trigger] out@[i])@.is_valid_extension_of(
            env@,
        ) by {
            assert(results(out@).contains(out@[i]@));
        }
    }
    out
}

} // verus!
