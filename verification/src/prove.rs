//! The entry point of the prover and the judgments on where-clauses and
//! on lists of them.

use vstd::prelude::*;
use crate::constraints::{lemma_allowed, lemma_seq, Constraints, ConstraintsView};
use crate::decls::Decls;
use crate::env::{
    all_bound, lemma_free_variables_all, lemma_free_variables_member, lemma_pending_wf, Env,
    EnvView,
};
use crate::grammar::{
    checked_sum, relations_free_variables, relations_size, Relation, Variable, Wcs,
};
use crate::laws::lemma_minimization_round_trip;
use crate::minimize::{lemma_reconstitute, minimize};
use crate::prove_eq::{binding, prove_eq, proves_eq};
use crate::prove_outlives::{prove_outlives, proves_outlives};
use crate::proven::{insert, no_repeats, results, Judgment, ProvenConstraints};
use crate::renaming::lemma_sides_bound;
use crate::substitution::{
    apply_relations, as_variable, bindable, can_bind, lemma_apply_bound_relations,
    lemma_apply_nothing, lemma_bound_variable_is_gone, substitute_in_relations,
};

verus! {

/// `c` is a result of proving the where-clause `r` in `env`.
pub open spec fn proves_wc(env: EnvView, r: Relation, c: ConstraintsView) -> bool {
    match r {
        Relation::Outlives(a, b) => proves_outlives(env, a, b, c),
        Relation::Equals(a, b) => proves_eq(env, a, b, c),
    }
}

/// `c` is a result of proving every where-clause of `goals` in `env`,
/// one after the other.
///
/// The empty list holds in `env` as it is. A longer list holds where
/// its first clause holds with some result and the clauses after it
/// hold after that result.
pub open spec fn proves_wc_list(
    decls: Decls,
    env: EnvView,
    assumptions: Seq<Relation>,
    goals: Seq<Relation>,
    c: ConstraintsView,
) -> bool
    decreases goals.len(), 0int,
{
    if goals.len() == 0 {
        c == ConstraintsView::none(env)
    } else {
        exists|c1: ConstraintsView|
            #[trigger] proves_wc(env, goals.first(), c1) && proves_after(
                decls,
                c1,
                assumptions,
                goals.drop_first(),
                c,
            )
    }
}

/// `c` is a result of proving `goals` after the result `c1`.
///
/// The values that `c1` chose are put into the assumptions and the
/// goals. Where these have grown larger than the declarations allow,
/// the one result is `c1` made ambiguous. Otherwise the goals are
/// proved in the environment that `c1` ended in, and `c` is `c1` and
/// after it a result of that.
pub open spec fn proves_after(
    decls: Decls,
    c1: ConstraintsView,
    assumptions: Seq<Relation>,
    goals: Seq<Relation>,
    c: ConstraintsView,
) -> bool
    decreases goals.len(), 1int,
{
    if overflows(
        decls,
        apply_relations(c1.substitution, assumptions),
        apply_relations(c1.substitution, goals),
    ) {
        c == c1.seq(ConstraintsView::none(c1.env).ambiguous())
    } else {
        exists|c2: ConstraintsView|
            proves_wc_list(
                decls,
                c1.env,
                apply_relations(c1.substitution, assumptions),
                apply_relations(c1.substitution, goals),
                c2,
            ) && #[trigger] c1.seq(c2) == c
    }
}

/// The result that a result `c1` is followed by, in a proof of `goals`
/// after `c1` that ends in `c`.
pub open spec fn follower(
    decls: Decls,
    c1: ConstraintsView,
    assumptions: Seq<Relation>,
    goals: Seq<Relation>,
    c: ConstraintsView,
) -> ConstraintsView {
    if overflows(
        decls,
        apply_relations(c1.substitution, assumptions),
        apply_relations(c1.substitution, goals),
    ) {
        ConstraintsView::none(c1.env).ambiguous()
    } else {
        choose|c2: ConstraintsView|
            proves_wc_list(
                decls,
                c1.env,
                apply_relations(c1.substitution, assumptions),
                apply_relations(c1.substitution, goals),
                c2,
            ) && #[trigger] c1.seq(c2) == c
    }
}

/// A result of a where-clause is a certain, well formed result that
/// extends the environment, and each variable that it chooses for is a
/// side of the where-clause, an equality.
pub proof fn lemma_wc_result(env: EnvView, r: Relation, c: ConstraintsView)
    requires
        env.wf(),
        env.encloses_relation(r),
        proves_wc(env, r, c),
    ensures
        c.is_valid_extension_of(env),
        c.known_true,
        c.substitution.len() <= 1,
        forall|i: int|
            0 <= i < c.substitution.len() ==> r is Equals && (as_variable(r.lhs()) == Some(
                (#[trigger] c.substitution[i]).0,
            ) || as_variable(r.rhs()) == Some(c.substitution[i].0)),
{
    lemma_sides_bound(env.variables, r);
    match r {
        Relation::Outlives(a, b) => {
            lemma_pending_wf(env, r);
        },
        Relation::Equals(a, b) => {
            if c.substitution.len() > 0 {
                let v = c.substitution[0].0;
                if can_bind(a, b) && c == binding(env, as_variable(a).unwrap(), b) {
                    assert(a.spec_free_variables()[0] == v);
                } else {
                    assert(b.spec_free_variables()[0] == v);
                }
            }
        },
    }
}

/// After a result of the first where-clause has been put into the
/// clauses that follow, a variable that is a side of an equality among
/// them was a side of an equality before, and the result did not choose
/// for it.
pub proof fn lemma_after_wc(env: EnvView, goals: Seq<Relation>, c1: ConstraintsView, k: Variable)
    requires
        goals.len() > 0,
        proves_wc(env, goals.first(), c1),
        bindable(apply_relations(c1.substitution, goals.drop_first()), k),
    ensures
        bindable(goals, k),
        forall|i: int| 0 <= i < c1.substitution.len() ==> (#[trigger] c1.substitution[i]).0 != k,
{
    let rest = goals.drop_first();
    let applied = apply_relations(c1.substitution, rest);
    let i = choose|i: int|
        0 <= i < applied.len() && (#[trigger] applied[i]) is Equals && (as_variable(applied[i].lhs())
            == Some(k) || as_variable(applied[i].rhs()) == Some(k));
    assert(rest[i] == goals[i + 1]);
    if c1.substitution.len() == 0 {
        lemma_apply_nothing(rest);
        assert(c1.substitution =~= Seq::empty());
        assert(goals[i + 1] is Equals);
    } else {
        let r = goals.first();
        assert(r == goals[0]);
        let (a, b) = if can_bind(r.lhs(), r.rhs()) && c1 == binding(
            env,
            as_variable(r.lhs()).unwrap(),
            r.rhs(),
        ) {
            (r.lhs(), r.rhs())
        } else {
            (r.rhs(), r.lhs())
        };
        assert(c1.substitution =~= seq![(as_variable(a).unwrap(), b)]);
        lemma_bound_variable_is_gone(a, b, rest[i].lhs());
        lemma_bound_variable_is_gone(a, b, rest[i].rhs());
        assert(goals[i + 1] is Equals);
        assert(goals[0] is Equals);
    }
}

/// A result of a list of where-clauses is a well formed result that
/// extends the environment, and each variable that it chooses for is a
/// side of an equality of the list.
pub proof fn lemma_list_result(
    decls: Decls,
    env: EnvView,
    assumptions: Seq<Relation>,
    goals: Seq<Relation>,
    c: ConstraintsView,
)
    requires
        env.wf(),
        env.encloses(goals),
        proves_wc_list(decls, env, assumptions, goals, c),
    ensures
        c.is_valid_extension_of(env),
        forall|i: int|
            0 <= i < c.substitution.len() ==> bindable(goals, (#[trigger] c.substitution[i]).0),
    decreases goals.len(), 0int,
{
    if goals.len() > 0 {
        let c1 = choose|c1: ConstraintsView|
            #[trigger] proves_wc(env, goals.first(), c1) && proves_after(
                decls,
                c1,
                assumptions,
                goals.drop_first(),
                c,
            );
        lemma_after_result(decls, env, assumptions, goals, c1, c);
    }
}

/// A result of the where-clauses after the first, after a result of the
/// first, is that result and after it its follower; it is a well formed
/// result that extends the environment, and each variable that it
/// chooses for is a side of an equality of the list.
pub proof fn lemma_after_result(
    decls: Decls,
    env: EnvView,
    assumptions: Seq<Relation>,
    goals: Seq<Relation>,
    c1: ConstraintsView,
    c: ConstraintsView,
)
    requires
        env.wf(),
        env.encloses(goals),
        goals.len() > 0,
        proves_wc(env, goals.first(), c1),
        proves_after(decls, c1, assumptions, goals.drop_first(), c),
    ensures
        c == c1.seq(follower(decls, c1, assumptions, goals.drop_first(), c)),
        follower(decls, c1, assumptions, goals.drop_first(), c).is_valid_extension_of(c1.env),
        c.is_valid_extension_of(env),
        forall|i: int|
            0 <= i < c.substitution.len() ==> bindable(goals, (#[trigger] c.substitution[i]).0),
    decreases goals.len() - 1, 1int,
{
    let rest = goals.drop_first();
    let applied = apply_relations(c1.substitution, rest);
    let assumed = apply_relations(c1.substitution, assumptions);
    let c2 = follower(decls, c1, assumptions, rest, c);
    lemma_free_variables_member(goals, 0, env.variables);
    lemma_wc_result(env, goals.first(), c1);
    lemma_allowed(c1.env.variables, c1.substitution);
    lemma_rest_bound(env.variables, goals);
    lemma_apply_bound_relations(env.variables, c1.substitution, rest);
    if overflows(decls, assumed, applied) {
        assert(crate::constraints::allows(c2.env.variables, c2.substitution));
    } else {
        lemma_list_result(decls, c1.env, assumed, applied, c2);
    }
    assert forall|i: int, j: int|
        0 <= i < c1.substitution.len() && 0 <= j < c2.substitution.len() implies (
    #[trigger] c1.substitution[i]).0 != (#[trigger] c2.substitution[j]).0 by {
        lemma_after_wc(env, goals, c1, c2.substitution[j].0);
    }
    lemma_seq(c1, c2);
    let n = c1.substitution.len() as int;
    assert forall|i: int| 0 <= i < c.substitution.len() implies bindable(
        goals,
        (#[trigger] c.substitution[i]).0,
    ) by {
        if i < n {
            assert(c.substitution[i].0 == c1.substitution[i].0);
            assert(goals[0] == goals.first());
        } else {
            assert(c.substitution[i] == c2.substitution[i - n]);
            lemma_after_wc(env, goals, c1, c2.substitution[i - n].0);
        }
    }
}

/// The variables of the clauses after the first are bound where those
/// of the list are.
pub proof fn lemma_rest_bound(variables: Seq<Variable>, goals: Seq<Relation>)
    requires
        goals.len() > 0,
        all_bound(variables, relations_free_variables(goals)),
    ensures
        all_bound(variables, relations_free_variables(goals.drop_first())),
{
    let rest = goals.drop_first();
    assert forall|k: int| 0 <= k < rest.len() implies all_bound(
        variables,
        (#[trigger] rest[k]).spec_free_variables(),
    ) by {
        lemma_free_variables_member(goals, k + 1, variables);
    }
    lemma_free_variables_all(rest, variables);
}

/// The search would start on terms larger than the declarations allow.
pub open spec fn overflows(decls: Decls, assumptions: Seq<Relation>, goal: Seq<Relation>) -> bool {
    (1 + relations_size(assumptions)) + (1 + relations_size(goal))
        > decls.max_size
}

/// The single result of a search that was not started: ambiguous, with
/// nothing chosen and nothing put off, in the environment as it is.
pub open spec fn overflow_result(env: EnvView) -> ConstraintsView {
    ConstraintsView::none(env).ambiguous()
}

/// The query can be put to `prove`: it is too large to be searched, or
/// the environment binds every variable of the assumptions and of the
/// goal.
pub open spec fn can_ask(
    decls: Decls,
    env: EnvView,
    assumptions: Seq<Relation>,
    goal: Seq<Relation>,
) -> bool {
    overflows(decls, assumptions, goal) || (env.encloses(assumptions) && env.encloses(goal))
}

/// `c` is a result of `prove`.
pub open spec fn proves(
    decls: Decls,
    env: EnvView,
    assumptions: Seq<Relation>,
    goal: Seq<Relation>,
    c: ConstraintsView,
) -> bool {
    if overflows(decls, assumptions, goal) {
        c == overflow_result(env)
    } else {
        proves_wc_list(decls, env, assumptions, goal, c)
    }
}

/// The results of `prove`, as a set.
pub open spec fn proofs(
    decls: Decls,
    env: EnvView,
    assumptions: Seq<Relation>,
    goal: Seq<Relation>,
) -> Set<ConstraintsView> {
    Set::new(|c: ConstraintsView| proves(decls, env, assumptions, goal, c))
}

/// Proves `goal` from `assumptions` in `env`: every way in which all the
/// where-clauses of the goal hold, each once.
///
/// Where assumptions and goal together are larger than
/// `decls.max_size`, no search is made, and the one result is
/// ambiguous, with nothing chosen, in `env` as it is. Otherwise the
/// environment and the terms are minimized, the where-clauses are
/// proved one after the other, and each result is rewritten over the
/// variables of `env`; the set is that of a failed search where there
/// is none. Every result extends `env`.
pub fn prove(decls: Decls, env: Env, assumptions: Wcs, goal: Wcs) -> (out: ProvenConstraints)
    requires
        can_ask(decls, env@, assumptions@, goal@),
    ensures
        out@ == proofs(decls, env@, assumptions@, goal@),
        forall|c: ConstraintsView| out@.contains(c) ==> c.is_valid_extension_of(env@),
{
    let ghost env0 = env@;
    let ghost a0 = assumptions@;
    let ghost g0 = goal@;
    // Give up where the terms are too large. Minimizing renames variables
    // and leaves every size as it is, so the terms are measured as given.
    let too_large = match checked_sum(assumptions.size(), goal.size()) {
        None => true,
        Some(n) => n > decls.max_size,
    };
    if too_large {
        let judgment =
            Judgment { goal: &goal, assumptions: &assumptions, env: &env, decls: &decls };
        let unsure = Constraints::none(env.clone()).ambiguous();
        let out = ProvenConstraints::singleton(unsure, &judgment);
        assert(out@ =~= proofs(decls, env0, a0, g0));
        return out;
    }
    // "Minimize" the env/assumptions/goals so that recurring goals look alike.
    let (env, (assumptions, goal), min) = minimize(env, (assumptions, goal));
    let judgment = Judgment { goal: &goal, assumptions: &assumptions, env: &env, decls: &decls };
    // The term to prove has no variables that are not in the environment.
    assert(env@.encloses(goal@) && env@.encloses(assumptions@));
    // `prove_wc_list` does the real work.
    let found = prove_wc_list(&decls, &env, &assumptions, &goal);
    // Map the results back to the unminimized form.
    let mut table: Vec<Constraints> = Vec::new();
    assert(results(table@) =~= Set::<ConstraintsView>::empty());
    let mut j: usize = 0;
    while j < found.len()
        invariant
            j <= found@.len(),
            min@.wf(),
            min@.env_min() == env@,
            no_repeats(table@),
            forall|i: int|
                0 <= i < found@.len() ==> (#[trigger] found@[i])@.is_valid_extension_of(env@),
            forall|c: ConstraintsView|
                results(table@).contains(c) <==> exists|i: int|
                    0 <= i < j && #[trigger] min@.reconstitute(found@[i]@) == c,
        decreases found@.len() - j,
    {
        let item = found[j].clone();
        assert(item@ == found@[j as int]@);
        assert(found@[j as int]@.is_valid_extension_of(env@));
        let back = min.reconstitute(item);
        assert(back@ == min@.reconstitute(found@[j as int]@));
        insert(&mut table, back);
        j += 1;
    }
    proof {
        assert forall|c: ConstraintsView| results(table@).contains(c) <==> proves_wc_list(
            decls,
            env0,
            a0,
            g0,
            c,
        ) by {
            lemma_minimization_round_trip(decls, env0, a0, g0, c);
            if results(table@).contains(c) {
                let i = choose|i: int|
                    0 <= i < j && #[trigger] min@.reconstitute(found@[i]@) == c;
                assert(results(found@).contains(found@[i]@));
            }
            if proves_wc_list(decls, env0, a0, g0, c) {
                let m = choose|m: ConstraintsView|
                    proves_wc_list(decls, env@, assumptions@, goal@, m) && #[trigger] min@.reconstitute(
                        m,
                    ) == c;
                assert(results(found@).contains(m));
                let i = choose|i: int| 0 <= i < found@.len() && (#[trigger] found@[i])@ == m;
                assert(min@.reconstitute(found@[i]@) == c);
            }
        }
        assert(results(table@) =~= proofs(decls, env0, a0, g0));
        assert forall|c: ConstraintsView| results(table@).contains(c) implies c.is_valid_extension_of(
            env0,
        ) by {
            let i = choose|i: int| 0 <= i < j && #[trigger] min@.reconstitute(found@[i]@) == c;
            lemma_reconstitute(min@, found@[i]@);
        }
    }
    ProvenConstraints::proven(table, &judgment)
}

/// Every way in which the where-clause `goal` holds in `env`, each once.
pub fn prove_wc(decls: &Decls, env: &Env, assumptions: &Wcs, goal: &Relation) -> (out: Vec<
    Constraints,
>)
    requires
        env@.encloses_relation(*goal),
    ensures
        no_repeats(out@),
        forall|c: ConstraintsView| results(out@).contains(c) <==> proves_wc(env@, *goal, c),
        forall|i: int| 0 <= i < out@.len() ==> (#[trigger] out@[i])@.is_valid_extension_of(env@),
{
    match goal {
        Relation::Outlives(a, b) => prove_outlives(decls, env, assumptions, a, b),
        Relation::Equals(a, b) => prove_eq(decls, env, assumptions, a, b),
    }
}

/// The where-clauses of `goals` after the first.
fn rest_of(goals: &Wcs) -> (rest: Wcs)
    requires
        goals@.len() > 0,
    ensures
        rest@ == goals@.drop_first(),
{
    let mut rest: Vec<Relation> = Vec::new();
    let mut i: usize = 1;
    while i < goals.clauses.len()
        invariant
            1 <= i <= goals.clauses@.len(),
            rest@.len() == i - 1,
            forall|j: int| 0 <= j < i - 1 ==> rest@[j] == goals.clauses@[j + 1],
        decreases goals.clauses@.len() - i,
    {
        rest.push(goals.clauses[i].clone());
        i += 1;
    }
    assert(rest@ =~= goals@.drop_first());
    Wcs::from_vec(rest)
}

/// Every way in which all the where-clauses of `goals` hold in `env`,
/// each once: the first clause is proved, and the clauses after it are
/// proved after each of its results.
pub fn prove_wc_list(decls: &Decls, env: &Env, assumptions: &Wcs, goals: &Wcs) -> (out: Vec<
    Constraints,
>)
    requires
        env@.encloses(goals@),
    ensures
        no_repeats(out@),
        forall|c: ConstraintsView|
            results(out@).contains(c) <==> proves_wc_list(*decls, env@, assumptions@, goals@, c),
        forall|i: int| 0 <= i < out@.len() ==> (#[trigger] out@[i])@.is_valid_extension_of(env@),
    decreases goals@.len(), 0int,
{
    let _ = env.pending();
    let mut out: Vec<Constraints> = Vec::new();
    assert(results(out@) =~= Set::<ConstraintsView>::empty());
    if goals.len() == 0 {
        insert(&mut out, Constraints::none(env.clone()));
        proof {
            assert forall|i: int| 0 <= i < out@.len() implies (
            #[trigger] out@[i])@.is_valid_extension_of(env@) by {
                assert(results(out@).contains(out@[i]@));
            }
        }
        return out;
    }
    proof {
        lemma_free_variables_member(goals@, 0, env@.variables);
        lemma_rest_bound(env@.variables, goals@);
    }
    let first = prove_wc(decls, env, assumptions, &goals.clauses[0]);
    let rest = rest_of(goals);
    let mut k: usize = 0;
    while k < first.len()
        invariant
            k <= first@.len(),
            goals@.len() > 0,
            rest@ == goals@.drop_first(),
            env@.wf(),
            env@.encloses(goals@),
            env@.encloses(rest@),
            env@.encloses_relation(goals@.first()),
            no_repeats(out@),
            forall|c: ConstraintsView|
                results(first@).contains(c) <==> proves_wc(env@, goals@.first(), c),
            forall|c: ConstraintsView|
                results(out@).contains(c) <==> exists|i: int|
                    0 <= i < k && proves_after(
                        *decls,
                        (#[trigger] first@[i])@,
                        assumptions@,
                        rest@,
                        c,
                    ),
        decreases first@.len() - k,
    {
        let c1 = &first[k];
        proof {
            assert(results(first@).contains(c1@));
            lemma_wc_result(env@, goals@.first(), c1@);
            assert forall|v: Variable|
                bindable(apply_relations(c1@.substitution, rest@), v) implies forall|i: int|
                0 <= i < c1@.substitution.len() ==> (#[trigger] c1@.substitution[i]).0 != v by {
                lemma_after_wc(env@, goals@, c1@, v);
            }
        }
        let found = prove_after(decls, c1, assumptions, &rest);
        let mut j: usize = 0;
        while j < found.len()
            invariant
                j <= found@.len(),
                k < first@.len(),
                c1@ == first@[k as int]@,
                no_repeats(out@),
                forall|c: ConstraintsView|
                    results(found@).contains(c) <==> proves_after(*decls, c1@, assumptions@, rest@, c),
                forall|c: ConstraintsView|
                    results(out@).contains(c) <==> (exists|i: int|
                        0 <= i < k && proves_after(
                        *decls,
                        (#[trigger] first@[i])@,
                        assumptions@,
                        rest@,
                        c,
                    )) || (
                    exists|i: int| 0 <= i < j && (#[trigger] found@[i])@ == c),
            decreases found@.len() - j,
        {
            insert(&mut out, found[j].clone());
            j += 1;
        }
        proof {
            assert forall|c: ConstraintsView| results(out@).contains(c) <==> exists|i: int|
                0 <= i < k + 1 && proves_after(
                        *decls,
                        (#[trigger] first@[i])@,
                        assumptions@,
                        rest@,
                        c,
                    ) by {
                if results(out@).contains(c) {
                    if exists|i: int| 0 <= i < j && (#[trigger] found@[i])@ == c {
                        let i = choose|i: int| 0 <= i < j && (#[trigger] found@[i])@ == c;
                        assert(results(found@).contains(c));
                        assert(proves_after(*decls, first@[k as int]@, assumptions@, rest@, c));
                    }
                }
                if exists|i: int|
                    0 <= i < k + 1 && proves_after(
                        *decls,
                        (#[trigger] first@[i])@,
                        assumptions@,
                        rest@,
                        c,
                    ) {
                    let i = choose|i: int|
                        0 <= i < k + 1 && proves_after(
                        *decls,
                        (#[trigger] first@[i])@,
                        assumptions@,
                        rest@,
                        c,
                    );
                    if i == k {
                        assert(results(found@).contains(c));
                        let p = choose|p: int| 0 <= p < found@.len() && (#[trigger] found@[p])@ == c;
                    }
                }
            }
        }
        k += 1;
    }
    proof {
        assert forall|c: ConstraintsView| results(out@).contains(c) <==> proves_wc_list(
            *decls,
            env@,
            assumptions@,
            goals@,
            c,
        ) by {
            if results(out@).contains(c) {
                let i = choose|i: int|
                    0 <= i < k && proves_after(
                        *decls,
                        (#[trigger] first@[i])@,
                        assumptions@,
                        rest@,
                        c,
                    );
                assert(results(first@).contains(first@[i]@));
                assert(proves_wc(env@, goals@.first(), first@[i]@));
            }
            if proves_wc_list(*decls, env@, assumptions@, goals@, c) {
                let c1 = choose|c1: ConstraintsView|
                    #[trigger] proves_wc(env@, goals@.first(), c1) && proves_after(
                        *decls,
                        c1,
                        assumptions@,
                        goals@.drop_first(),
                        c,
                    );
                assert(results(first@).contains(c1));
                let i = choose|i: int| 0 <= i < first@.len() && (#[trigger] first@[i])@ == c1;
                assert(proves_after(*decls, first@[i]@, assumptions@, rest@, c));
            }
        }
        assert forall|i: int| 0 <= i < out@.len() implies (#[trigger] out@[i])@.is_valid_extension_of(
            env@,
        ) by {
            assert(results(out@).contains(out@[i]@));
            lemma_list_result(*decls, env@, assumptions@, goals@, out@[i]@);
        }
    }
    out
}

/// Every way in which all the where-clauses of `goals` hold after the
/// result `c1`, each once.
///
/// The values that `c1` chose are put into the assumptions and the
/// goals. Where these have grown larger than `decls.max_size`, no
/// search is made, and the one result is `c1` made ambiguous. Otherwise
/// the goals are proved in the environment that `c1` ended in, and each
/// result is put after `c1`.
pub fn prove_after(decls: &Decls, c1: &Constraints, assumptions: &Wcs, goals: &Wcs) -> (out: Vec<
    Constraints,
>)
    requires
        c1@.env.encloses(goals@),
        forall|v: Variable|
            bindable(apply_relations(c1@.substitution, goals@), v) ==> forall|i: int|
                0 <= i < c1@.substitution.len() ==> (#[trigger] c1@.substitution[i]).0 != v,
    ensures
        no_repeats(out@),
        forall|c: ConstraintsView|
            results(out@).contains(c) <==> proves_after(*decls, c1@, assumptions@, goals@, c),
    decreases goals@.len(), 1int,
{
    let env = c1.env();
    proof {
        lemma_allowed(c1@.env.variables, c1@.substitution);
        lemma_apply_bound_relations(c1@.env.variables, c1@.substitution, goals@);
        assert(goals@.skip(0) =~= goals@);
        assert(assumptions@.skip(0) =~= assumptions@);
    }
    let applied = Wcs::from_vec(substitute_in_relations(c1.substitution(), &goals.clauses, 0));
    let assumed = Wcs::from_vec(substitute_in_relations(c1.substitution(), &assumptions.clauses, 0));
    let mut out: Vec<Constraints> = Vec::new();
    assert(results(out@) =~= Set::<ConstraintsView>::empty());
    let too_large = match checked_sum(assumed.size(), applied.size()) {
        None => true,
        Some(n) => n > decls.max_size,
    };
    if too_large {
        insert(&mut out, c1.seq(&Constraints::none(env.clone()).ambiguous()));
        return out;
    }
    let found = prove_wc_list(decls, env, &assumed, &applied);
    let mut j: usize = 0;
    while j < found.len()
        invariant
            j <= found@.len(),
            c1@.wf(),
            c1@.env.encloses(applied@),
            applied@ == apply_relations(c1@.substitution, goals@),
            assumed@ == apply_relations(c1@.substitution, assumptions@),
            forall|v: Variable|
                bindable(applied@, v) ==> forall|i: int|
                    0 <= i < c1@.substitution.len() ==> (#[trigger] c1@.substitution[i]).0 != v,
            no_repeats(out@),
            forall|c: ConstraintsView|
                results(found@).contains(c) <==> proves_wc_list(
                    *decls,
                    c1@.env,
                    assumed@,
                    applied@,
                    c,
                ),
            forall|c: ConstraintsView|
                results(out@).contains(c) <==> exists|i: int|
                    0 <= i < j && #[trigger] c1@.seq(found@[i]@) == c,
        decreases found@.len() - j,
    {
        let c2 = &found[j];
        proof {
            assert(results(found@).contains(c2@));
            lemma_list_result(*decls, c1@.env, assumed@, applied@, c2@);
            assert forall|a: int, b: int|
                0 <= a < c1@.substitution.len() && 0 <= b < c2@.substitution.len() implies (
            #[trigger] c1@.substitution[a]).0 != (#[trigger] c2@.substitution[b]).0 by {
                assert(bindable(applied@, c2@.substitution[b].0));
            }
        }
        insert(&mut out, c1.seq(c2));
        j += 1;
    }
    proof {
        assert forall|c: ConstraintsView| results(out@).contains(c) <==> proves_after(
            *decls,
            c1@,
            assumptions@,
            goals@,
            c,
        ) by {
            if results(out@).contains(c) {
                let i = choose|i: int| 0 <= i < j && #[trigger] c1@.seq(found@[i]@) == c;
                assert(results(found@).contains(found@[i]@));
            }
            if proves_after(*decls, c1@, assumptions@, goals@, c) {
                let c2 = choose|c2: ConstraintsView|
                    proves_wc_list(*decls, c1@.env, assumed@, applied@, c2) && #[trigger] c1@.seq(
                        c2,
                    ) == c;
                assert(results(found@).contains(c2));
                let i = choose|i: int| 0 <= i < found@.len() && (#[trigger] found@[i])@ == c2;
                assert(c1@.seq(found@[i]@) == c);
            }
        }
    }
    out
}

} // verus!
