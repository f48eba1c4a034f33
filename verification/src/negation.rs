//! Negation as failure: what can be said of a goal by searching for its
//! proofs and finding none, or none that is certain.

use vstd::prelude::*;
use crate::constraints::{Constraints, ConstraintsView};
use crate::decls::Decls;
use crate::env::{Env, EnvView};
use crate::grammar::{Relation, Wcs};
use crate::prove::{can_ask, proofs, prove, proves};
use crate::proven::{results, Judgment, ProvenConstraints};

verus! {

/// The search for proofs of `goal` finds nothing.
pub open spec fn refuted(
    decls: Decls,
    env: EnvView,
    assumptions: Seq<Relation>,
    goal: Seq<Relation>,
) -> bool {
    forall|c: ConstraintsView| !proves(decls, env, assumptions, goal, c)
}

/// The search for proofs of `goal` finds a result that is certain.
pub open spec fn proved(
    decls: Decls,
    env: EnvView,
    assumptions: Seq<Relation>,
    goal: Seq<Relation>,
) -> bool {
    exists|c: ConstraintsView| #[trigger] proves(decls, env, assumptions, goal, c) && c.known_true
}

/// `c` is a result of proving that `goal` does not hold.
///
/// Where the search for the goal finds nothing, the negation holds in
/// `env` as it is. Where it finds a certain result, the negation has no
/// proof. Where all it finds is ambiguous, so is the negation. The
/// negation never chooses a value for a variable.
pub open spec fn proves_negation(
    decls: Decls,
    env: EnvView,
    assumptions: Seq<Relation>,
    goal: Seq<Relation>,
    c: ConstraintsView,
) -> bool {
    if refuted(decls, env, assumptions, goal) {
        c == ConstraintsView::none(env)
    } else if proved(decls, env, assumptions, goal) {
        false
    } else {
        c == ConstraintsView::none(env).ambiguous()
    }
}

/// Whether the search found a result that is certain.
fn any_known_true(found: &ProvenConstraints) -> (b: bool)
    ensures
        b == exists|c: ConstraintsView| #[trigger] found@.contains(c) && c.known_true,
{
    let items = found.items();
    let mut i: usize = 0;
    while i < items.len()
        invariant
            i <= items@.len(),
            results(items@) == found@,
            forall|k: int| 0 <= k < i ==> !(#[trigger] items@[k])@.known_true,
        decreases items@.len() - i,
    {
        if items[i].is_known_true() {
            assert(results(items@).contains(items@[i as int]@));
            assert(found@.contains(items@[i as int]@));
            return true;
        }
        i += 1;
    }
    proof {
        assert forall|c: ConstraintsView| #[trigger] found@.contains(c) implies !c.known_true by {
            let k = choose|k: int| 0 <= k < items@.len() && (#[trigger] items@[k])@ == c;
        }
    }
    false
}

/// Proves that `goal` does not hold, by failing to prove that it holds.
pub fn negation_via_failure(decls: Decls, env: Env, assumptions: Wcs, goal: Wcs) -> (out:
    ProvenConstraints)
    requires
        can_ask(decls, env@, assumptions@, goal@),
    ensures
        forall|c: ConstraintsView|
            out@.contains(c) <==> proves_negation(decls, env@, assumptions@, goal@, c),
{
    let found = prove(decls, env.clone(), assumptions.clone(), goal.clone());
    let judgment = Judgment { goal: &goal, assumptions: &assumptions, env: &env, decls: &decls };
    if !found.is_proven() {
        assert forall|c: ConstraintsView| !proves(decls, env@, assumptions@, goal@, c) by {
            if proves(decls, env@, assumptions@, goal@, c) {
                assert(proofs(decls, env@, assumptions@, goal@).contains(c));
                assert(found@.contains(c));
            }
        }
        ProvenConstraints::singleton(Constraints::none(env.clone()), &judgment)
    } else if any_known_true(&found) {
        proof {
            let w = choose|c: ConstraintsView| found@.contains(c);
            assert(proves(decls, env@, assumptions@, goal@, w));
        }
        let table: Vec<Constraints> = Vec::new();
        let out = ProvenConstraints::proven(table, &judgment);
        proof {
            assert forall|c: ConstraintsView| !out@.contains(c) by {
                if results(table@).contains(c) {
                    let k = choose|k: int| 0 <= k < table@.len() && (#[trigger] table@[k])@ == c;
                }
            }
        }
        out
    } else {
        proof {
            let w = choose|c: ConstraintsView| found@.contains(c);
            assert(proves(decls, env@, assumptions@, goal@, w));
            assert(!proved(decls, env@, assumptions@, goal@)) by {
                if proved(decls, env@, assumptions@, goal@) {
                    let c = choose|c: ConstraintsView|
                        #[trigger] proves(decls, env@, assumptions@, goal@, c) && c.known_true;
                    assert(found@.contains(c));
                }
            }
        }
        ProvenConstraints::singleton(Constraints::none(env.clone()).ambiguous(), &judgment)
    }
}

/// Whether `goal` is certain to have no proof: the search for its proofs
/// comes back empty, with no ambiguous result.
pub fn is_definitely_not_proveable(decls: Decls, env: Env, assumptions: Wcs, goal: Wcs) -> (b:
    bool)
    requires
        can_ask(decls, env@, assumptions@, goal@),
    ensures
        b == refuted(decls, env@, assumptions@, goal@),
        b ==> proofs(decls, env@, assumptions@, goal@) == Set::<ConstraintsView>::empty(),
{
    let negation = negation_via_failure(decls, env, assumptions, goal);
    let items = negation.items();
    let ghost yes = ConstraintsView::none(env@);
    let ghost unsure = ConstraintsView::none(env@).ambiguous();
    let mut found = false;
    let mut i: usize = 0;
    while i < items.len()
        invariant
            i <= items@.len(),
            found == exists|k: int| 0 <= k < i && (#[trigger] items@[k])@.unconditionally_true(),
        decreases items@.len() - i,
    {
        if items[i].unconditionally_true() {
            found = true;
        }
        i += 1;
    }
    proof {
        if found {
            let k = choose|k: int|
                0 <= k < items@.len() && (#[trigger] items@[k])@.unconditionally_true();
            assert(negation@.contains(items@[k]@));
            assert(proofs(decls, env@, assumptions@, goal@) =~= Set::<ConstraintsView>::empty());
        }
        if refuted(decls, env@, assumptions@, goal@) {
            assert(negation@.contains(yes));
            let k = choose|k: int| 0 <= k < items@.len() && (#[trigger] items@[k])@ == yes;
            assert(items@[k]@.unconditionally_true());
        }
    }
    found
}

/// Whether `goal` may have no proof: the search for its proofs comes
/// back empty, or with ambiguous results alone.
pub fn may_not_be_provable(decls: Decls, env: Env, assumptions: Wcs, goal: Wcs) -> (b: bool)
    requires
        can_ask(decls, env@, assumptions@, goal@),
    ensures
        b == !proved(decls, env@, assumptions@, goal@),
        refuted(decls, env@, assumptions@, goal@) ==> b,
{
    let negation = negation_via_failure(decls, env, assumptions, goal);
    let b = negation.is_proven();
    proof {
        let yes = ConstraintsView::none(env@);
        let unsure = ConstraintsView::none(env@).ambiguous();
        if !proved(decls, env@, assumptions@, goal@) {
            assert(negation@.contains(yes) || negation@.contains(unsure));
        }
        if refuted(decls, env@, assumptions@, goal@) && proved(decls, env@, assumptions@, goal@) {
            let c = choose|c: ConstraintsView|
                #[trigger] proves(decls, env@, assumptions@, goal@, c) && c.known_true;
        }
    }
    b
}

} // verus!
