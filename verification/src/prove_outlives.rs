//! The outlives judgment.
//!
//! `a` outlives `b` where `a` stays usable for as long as `b` is usable.
//!
//! * trivial: where `a` and `b` are the same term, the relation holds
//!   as it is, and no other rule is tried.
//!
//! Otherwise two rules give results, and each that applies gives its
//! own:
//!
//! * static: `a` is `'static`, which outlives everything;
//! * pending: the relation is put off, recorded in the environment for
//!   the caller to discharge. This rule always applies.

use vstd::prelude::*;
use crate::constraints::{Constraints, ConstraintsView};
use crate::decls::Decls;
use crate::env::{Env, EnvView};
use crate::grammar::{Parameter, Relation, Wcs};
use crate::proven::{insert, no_repeats, results};

verus! {

/// The trivial rule applies: the two sides are the same term.
pub open spec fn outlives_trivially(a: Parameter, b: Parameter) -> bool {
    a == b
}

/// The static rule applies: the left side is `'static`.
pub open spec fn outlives_as_static(a: Parameter) -> bool {
    a.is_static()
}

/// `c` is a result of proving that `a` outlives `b` in `env`.
pub open spec fn proves_outlives(
    env: EnvView,
    a: Parameter,
    b: Parameter,
    c: ConstraintsView,
) -> bool {
    if outlives_trivially(a, b) {
        c == ConstraintsView::none(env)
    } else {
        ||| (outlives_as_static(a) && c == ConstraintsView::none(env))
        ||| c == ConstraintsView::none(env.with_pending(Relation::Outlives(a, b)))
    }
}

/// Every way in which `a` outlives `b` in `env`, each once.
pub fn prove_outlives(
    _decls: &Decls,
    env: &Env,
    _assumptions: &Wcs,
    a: &Parameter,
    b: &Parameter,
) -> (out: Vec<Constraints>)
    requires
        env@.encloses_relation(Relation::Outlives(*a, *b)),
    ensures
        no_repeats(out@),
        forall|c: ConstraintsView| results(out@).contains(c) <==> proves_outlives(env@, *a, *b, c),
        forall|i: int| 0 <= i < out@.len() ==> (#[trigger] out@[i])@.is_valid_extension_of(env@),
{
    let mut out: Vec<Constraints> = Vec::new();
    assert(results(out@) =~= Set::<ConstraintsView>::empty());
    let ghost plain = ConstraintsView::none(env@);
    let ghost put_off = ConstraintsView::none(env@.with_pending(Relation::Outlives(*a, *b)));
    // trivial
    if a.same(b) {
        insert(&mut out, Constraints::none(env.clone()));
        proof {
            assert forall|i: int| 0 <= i < out@.len() implies (
            #[trigger] out@[i])@.is_valid_extension_of(env@) by {
                assert(results(out@).contains(out@[i]@));
            }
        }
        return out;
    }
    // 'static outlives us all
    if a.is_static() {
        insert(&mut out, Constraints::none(env.clone()));
    }
    // anything can be pending
    let relation = Relation::outlives(a.clone(), b.clone());
    insert(&mut out, Constraints::none(env.clone().with_pending(relation)));
    proof {
        assert forall|i: int| 0 <= i < out@.len() implies (#[trigger] out@[i])@.is_valid_extension_of(
            env@,
        ) by {
            assert(results(out@).contains(out@[i]@));
            assert(out@[i]@ == plain || out@[i]@ == put_off);
        }
    }
    out
}

} // verus!
