//! What holds of the prover on every input, proved over the same
//! judgments that the contracts of the prover speak of.

use vstd::prelude::*;
use crate::constraints::{lemma_allowed, ConstraintsView};
use crate::env::{all_bound, lemma_free_variables_all, lemma_free_variables_member, EnvView};
use crate::grammar::{relations_free_variables, relations_size, Lt, Parameter, Relation, Variable};
use crate::minimize::{lemma_minimizing, mentioned, minimizing, shrink_env, MinimizationView};
use crate::prove::{
    follower, lemma_after_result, lemma_rest_bound, lemma_wc_result,
    overflow_result, overflows, proves, proves_after, proves_wc, proves_wc_list,
};
use crate::prove_eq::binding;
use crate::decls::Decls;
use crate::renaming::{
    firsts, inverse, lemma_inverse, lemma_rename_injective, lemma_renamed_bound_relations,
    lemma_round_trip_parameter, lemma_round_trip_relations, lemma_round_trip_variable,
    lemma_sides_bound, lemma_size_relations, one_to_one, rename_parameter, rename_relation,
    rename_relations,
    rename_substitution, rename_variable, seconds,
};
use crate::substitution::{
    apply_parameter, apply_relations, as_variable, can_bind, keys, lemma_apply_bound_parameter,
    lemma_apply_nothing,
    lemma_apply_bound_relations, lemma_can_bind_renamed, lemma_rename_apply_parameter,
    lemma_rename_apply_relations, values_bound,
};

verus! {

/// The environment `e` with its pending relations renamed, over
/// `variables`.
pub open spec fn transport(
    pairs: Seq<(Variable, Variable)>,
    variables: Seq<Variable>,
    e: EnvView,
) -> EnvView {
    EnvView { variables, pending: rename_relations(pairs, e.pending), bias: e.bias }
}

/// The result `c` renamed, in its environment over `variables`.
pub open spec fn transport_result(
    pairs: Seq<(Variable, Variable)>,
    variables: Seq<Variable>,
    c: ConstraintsView,
) -> ConstraintsView {
    ConstraintsView {
        env: transport(pairs, variables, c.env),
        known_true: c.known_true,
        substitution: rename_substitution(pairs, c.substitution),
    }
}

/// The renaming replaces every variable that the result mentions, and
/// the result gives no variable two values.
pub open spec fn within(pairs: Seq<(Variable, Variable)>, c: ConstraintsView) -> bool {
    &&& all_bound(firsts(pairs), relations_free_variables(c.env.pending))
    &&& all_bound(firsts(pairs), keys(c.substitution))
    &&& values_bound(firsts(pairs), c.substitution)
    &&& keys(c.substitution).no_duplicates()
}

/// Putting a relation off and renaming come to the same in either order.
pub proof fn lemma_transport_pending(
    pairs: Seq<(Variable, Variable)>,
    variables: Seq<Variable>,
    e: EnvView,
    r: Relation,
)
    requires
        one_to_one(pairs),
        all_bound(firsts(pairs), relations_free_variables(e.pending)),
        all_bound(firsts(pairs), r.spec_free_variables()),
    ensures
        transport(pairs, variables, e.with_pending(r)) == transport(pairs, variables, e).with_pending(
            rename_relation(pairs, r),
        ),
        all_bound(firsts(pairs), relations_free_variables(e.with_pending(r).pending)),
{
    let renamed = rename_relations(pairs, e.pending);
    let target = rename_relation(pairs, r);
    if e.pending.contains(r) {
        let i = choose|i: int| 0 <= i < e.pending.len() && e.pending[i] == r;
        assert(renamed[i] == target);
    } else {
        if renamed.contains(target) {
            let i = choose|i: int| 0 <= i < renamed.len() && renamed[i] == target;
            lemma_free_variables_member(e.pending, i, firsts(pairs));
            lemma_rename_injective(pairs, e.pending[i], r);
            assert(e.pending.contains(r));
        }
        let grown = e.pending.push(r);
        assert(rename_relations(pairs, grown) =~= renamed.push(target));
        assert forall|k: int| 0 <= k < grown.len() implies all_bound(
            firsts(pairs),
            (#[trigger] grown[k]).spec_free_variables(),
        ) by {
            if k < e.pending.len() {
                lemma_free_variables_member(e.pending, k, firsts(pairs));
            }
        }
        lemma_free_variables_all(grown, firsts(pairs));
    }
}

/// Renaming carries a proof of a where-clause to a proof of the renamed
/// where-clause in the renamed environment.
pub proof fn lemma_transport_wc(
    pairs: Seq<(Variable, Variable)>,
    variables: Seq<Variable>,
    e: EnvView,
    r: Relation,
    c: ConstraintsView,
)
    requires
        one_to_one(pairs),
        all_bound(firsts(pairs), relations_free_variables(e.pending)),
        all_bound(firsts(pairs), r.spec_free_variables()),
        proves_wc(e, r, c),
    ensures
        c.env.variables == e.variables,
        c.env.bias == e.bias,
        within(pairs, c),
        proves_wc(
            transport(pairs, variables, e),
            rename_relation(pairs, r),
            transport_result(pairs, variables, c),
        ),
{
    let e2 = transport(pairs, variables, e);
    let c2 = transport_result(pairs, variables, c);
    lemma_sides_bound(firsts(pairs), r);
    match r {
        Relation::Outlives(a, b) => {
            lemma_transport_pending(pairs, variables, e, r);
            // the two sides are the same term after the renaming exactly
            // where they were before it
            lemma_round_trip_parameter(pairs, a);
            lemma_round_trip_parameter(pairs, b);
            assert(c2.substitution =~= Seq::empty());
            assert(keys(c.substitution) =~= Seq::empty());
        },
        Relation::Equals(a, b) => {
            if a == b && c == ConstraintsView::none(e) {
                assert(c2.substitution =~= Seq::empty());
                assert(keys(c.substitution) =~= Seq::empty());
            } else {
                let (x, y) = if can_bind(a, b) && c == binding(e, as_variable(a).unwrap(), b) {
                    (a, b)
                } else {
                    (b, a)
                };
                let v = as_variable(x).unwrap();
                lemma_can_bind_renamed(pairs, x, y);
                assert(x.spec_free_variables()[0] == v);
                assert(c.substitution =~= seq![(v, y)]);
                assert(c2.substitution =~= seq![
                    (rename_variable(pairs, v), rename_parameter(pairs, y)),
                ]);
                assert(keys(c.substitution) =~= seq![v]);
                assert(c2 == binding(e2, rename_variable(pairs, v), rename_parameter(pairs, y)));
            }
        },
    }
}

/// Renaming carries a proof of a list of where-clauses to a proof of the
/// renamed list in the renamed environment.
pub proof fn lemma_transport_list(
    decls: Decls,
    pairs: Seq<(Variable, Variable)>,
    variables: Seq<Variable>,
    env: EnvView,
    assumptions: Seq<Relation>,
    goals: Seq<Relation>,
    c: ConstraintsView,
)
    requires
        one_to_one(pairs),
        env.wf(),
        env.encloses(goals),
        all_bound(firsts(pairs), relations_free_variables(env.pending)),
        all_bound(firsts(pairs), relations_free_variables(assumptions)),
        all_bound(firsts(pairs), relations_free_variables(goals)),
        proves_wc_list(decls, env, assumptions, goals, c),
    ensures
        c.env.variables == env.variables,
        c.env.bias == env.bias,
        within(pairs, c),
        proves_wc_list(
            decls,
            transport(pairs, variables, env),
            rename_relations(pairs, assumptions),
            rename_relations(pairs, goals),
            transport_result(pairs, variables, c),
        ),
    decreases goals.len(), 0int,
{
    let renamed = rename_relations(pairs, goals);
    if goals.len() == 0 {
        assert(transport_result(pairs, variables, c).substitution =~= Seq::empty());
        assert(keys(c.substitution) =~= Seq::empty());
    } else {
        let c1 = choose|c1: ConstraintsView|
            #[trigger] proves_wc(env, goals.first(), c1) && proves_after(
                decls,
                c1,
                assumptions,
                goals.drop_first(),
                c,
            );
        lemma_free_variables_member(goals, 0, firsts(pairs));
        lemma_transport_wc(pairs, variables, env, goals.first(), c1);
        lemma_transport_after(decls, pairs, variables, env, assumptions, goals, c1, c);
        assert(renamed.first() == rename_relation(pairs, goals.first()));
        assert(renamed.drop_first() =~= rename_relations(pairs, goals.drop_first()));
        assert(proves_wc(
            transport(pairs, variables, env),
            renamed.first(),
            transport_result(pairs, variables, c1),
        ));
    }
}

/// Renaming carries a proof of where-clauses after a result to a proof
/// of the renamed where-clauses after the renamed result.
pub proof fn lemma_transport_after(
    decls: Decls,
    pairs: Seq<(Variable, Variable)>,
    variables: Seq<Variable>,
    env: EnvView,
    assumptions: Seq<Relation>,
    goals: Seq<Relation>,
    c1: ConstraintsView,
    c: ConstraintsView,
)
    requires
        one_to_one(pairs),
        env.wf(),
        env.encloses(goals),
        goals.len() > 0,
        all_bound(firsts(pairs), relations_free_variables(env.pending)),
        all_bound(firsts(pairs), relations_free_variables(assumptions)),
        all_bound(firsts(pairs), relations_free_variables(goals)),
        proves_wc(env, goals.first(), c1),
        c1.env.variables == env.variables,
        within(pairs, c1),
        proves_after(decls, c1, assumptions, goals.drop_first(), c),
    ensures
        c.env.variables == env.variables,
        c.env.bias == c1.env.bias,
        within(pairs, c),
        proves_after(
            decls,
            transport_result(pairs, variables, c1),
            rename_relations(pairs, assumptions),
            rename_relations(pairs, goals.drop_first()),
            transport_result(pairs, variables, c),
        ),
    decreases goals.len() - 1, 1int,
{
    let rest = goals.drop_first();
    let applied = apply_relations(c1.substitution, rest);
    let assumed = apply_relations(c1.substitution, assumptions);
    let c2 = follower(decls, c1, assumptions, rest, c);
    let t1 = transport_result(pairs, variables, c1);
    let t2 = transport_result(pairs, variables, c2);
    lemma_after_result(decls, env, assumptions, goals, c1, c);
    lemma_free_variables_member(goals, 0, env.variables);
    lemma_wc_result(env, goals.first(), c1);
    lemma_allowed(c1.env.variables, c1.substitution);
    lemma_rest_bound(env.variables, goals);
    lemma_rest_bound(firsts(pairs), goals);
    lemma_apply_bound_relations(env.variables, c1.substitution, rest);
    lemma_apply_bound_relations(firsts(pairs), c1.substitution, rest);
    lemma_apply_bound_relations(firsts(pairs), c1.substitution, assumptions);
    lemma_rename_apply_relations(pairs, c1.substitution, rest);
    lemma_rename_apply_relations(pairs, c1.substitution, assumptions);
    lemma_size_relations(pairs, applied);
    lemma_size_relations(pairs, assumed);
    if overflows(decls, assumed, applied) {
        assert(t2.substitution =~= Seq::empty());
        assert(keys(c2.substitution) =~= Seq::empty());
        assert(t2 == ConstraintsView::none(t1.env).ambiguous());
    } else {
        lemma_transport_list(decls, pairs, variables, c1.env, assumed, applied, c2);
    }
    // the renamed results, one after the other, are the renamed result
    let n = c1.substitution.len() as int;
    let left = t1.seq(t2).substitution;
    let right = transport_result(pairs, variables, c).substitution;
    assert forall|i: int| 0 <= i < left.len() implies left[i] == right[i] by {
        if i < n {
            lemma_rename_apply_parameter(pairs, c2.substitution, c1.substitution[i].1);
            assert(c.substitution[i] == (
                c1.substitution[i].0,
                apply_parameter(c2.substitution, c1.substitution[i].1),
            ));
        } else {
            assert(c.substitution[i] == c2.substitution[i - n]);
        }
    }
    assert(left =~= right);
    assert(t1.seq(t2) == transport_result(pairs, variables, c));
    // the result stays within the renaming
    lemma_allowed(c.env.variables, c.substitution);
    let ks = keys(c.substitution);
    assert forall|i: int| 0 <= i < ks.len() implies firsts(pairs).contains(#[trigger] ks[i]) by {
        if i < n {
            assert(ks[i] == keys(c1.substitution)[i]);
        } else {
            assert(c.substitution[i] == c2.substitution[i - n]);
            assert(ks[i] == keys(c2.substitution)[i - n]);
        }
    }
    assert forall|i: int| 0 <= i < c.substitution.len() implies all_bound(
        firsts(pairs),
        (#[trigger] c.substitution[i]).1.spec_free_variables(),
    ) by {
        if i < n {
            lemma_apply_bound_parameter(firsts(pairs), c2.substitution, c1.substitution[i].1);
        } else {
            assert(c.substitution[i] == c2.substitution[i - n]);
        }
    }
}

/// Renaming a substitution and renaming it back gives the substitution
/// again, where the renaming replaces each of its variables.
pub proof fn lemma_round_trip_substitution(
    pairs: Seq<(Variable, Variable)>,
    s: Seq<(Variable, Parameter)>,
)
    requires
        one_to_one(pairs),
        all_bound(firsts(pairs), keys(s)),
        values_bound(firsts(pairs), s),
    ensures
        rename_substitution(inverse(pairs), rename_substitution(pairs, s)) == s,
{
    let back = rename_substitution(inverse(pairs), rename_substitution(pairs, s));
    assert forall|i: int| 0 <= i < s.len() implies back[i] == s[i] by {
        assert(firsts(pairs).contains(keys(s)[i]));
        lemma_round_trip_variable(pairs, s[i].0);
        lemma_round_trip_parameter(pairs, s[i].1);
    }
    assert(back =~= s);
}

/// Minimization does not change what is proved: the results of the
/// search over the minimized environment, assumptions and goal,
/// rewritten back, are exactly the results of the search over the
/// environment, the assumptions and the goal as given.
pub proof fn lemma_minimization_round_trip(
    decls: Decls,
    env: EnvView,
    assumptions: Seq<Relation>,
    goal: Seq<Relation>,
    c: ConstraintsView,
)
    requires
        env.wf(),
        env.encloses(assumptions),
        env.encloses(goal),
        mentioned(env, assumptions, goal).len() <= usize::MAX,
    ensures
        proves_wc_list(decls, env, assumptions, goal, c) <==> exists|m: ConstraintsView|
            proves_wc_list(
                decls,
                shrink_env(minimizing(env, assumptions, goal), env),
                rename_relations(minimizing(env, assumptions, goal), assumptions),
                rename_relations(minimizing(env, assumptions, goal), goal),
                m,
            ) && #[trigger] (MinimizationView {
                env_max: env,
                pairs: minimizing(env, assumptions, goal),
            }).reconstitute(m) == c,
{
    let pairs = minimizing(env, assumptions, goal);
    let inv = inverse(pairs);
    let min = MinimizationView { env_max: env, pairs };
    let env_min = shrink_env(pairs, env);
    let goal_min = rename_relations(pairs, goal);
    let assumptions_min = rename_relations(pairs, assumptions);
    lemma_minimizing(env, assumptions, goal);
    lemma_inverse(pairs);
    lemma_round_trip_relations(pairs, env.pending);
    lemma_round_trip_relations(pairs, goal);
    lemma_round_trip_relations(pairs, assumptions);
    lemma_renamed_bound_relations(pairs, env.pending);
    lemma_renamed_bound_relations(pairs, goal);
    lemma_renamed_bound_relations(pairs, assumptions);
    assert(transport(pairs, seconds(pairs), env) == env_min);
    assert(transport(inv, env.variables, env_min) == env);
    if proves_wc_list(decls, env, assumptions, goal, c) {
        lemma_transport_list(decls, pairs, seconds(pairs), env, assumptions, goal, c);
        let m = transport_result(pairs, seconds(pairs), c);
        lemma_round_trip_relations(pairs, c.env.pending);
        lemma_round_trip_substitution(pairs, c.substitution);
        assert(min.reconstitute(m).env == c.env);
        assert(min.reconstitute(m) == c);
    }
    if exists|m: ConstraintsView|
        proves_wc_list(decls, env_min, assumptions_min, goal_min, m) && #[trigger] min.reconstitute(
            m,
        ) == c {
        let m = choose|m: ConstraintsView|
            proves_wc_list(decls, env_min, assumptions_min, goal_min, m)
                && #[trigger] min.reconstitute(m) == c;
        lemma_transport_list(decls, inv, env.variables, env_min, assumptions_min, goal_min, m);
        assert(min.reconstitute(m) == transport_result(inv, env.variables, m));
    }
}

/// A where-clause that holds with nothing chosen holds, with the same
/// result, as a goal of its own within the limit.
pub proof fn lemma_single_goal(
    decls: Decls,
    env: EnvView,
    assumptions: Seq<Relation>,
    r: Relation,
    c: ConstraintsView,
)
    requires
        !overflows(decls, assumptions, seq![r]),
        proves_wc(env, r, c),
        c.substitution.len() == 0,
        c.known_true,
    ensures
        proves_wc_list(decls, env, assumptions, seq![r], c),
{
    let goal = seq![r];
    let last = ConstraintsView::none(c.env);
    let nothing = Seq::<Relation>::empty();
    assert(goal.first() == r);
    assert(goal.drop_first() =~= nothing);
    assert(c.substitution =~= Seq::empty());
    lemma_apply_nothing(assumptions);
    assert(apply_relations(c.substitution, goal.drop_first()) =~= nothing);
    assert(relations_size(nothing) == 0);
    assert(relations_size(goal) >= 0);
    assert(!overflows(decls, assumptions, nothing));
    assert(proves_wc_list(decls, c.env, assumptions, nothing, last));
    assert(c.seq(last).substitution =~= c.substitution);
    assert(c.seq(last) == c);
    assert(proves_after(decls, c, assumptions, goal.drop_first(), c));
}

/// Outlives is reflexive: a goal that a parameter outlives itself has
/// the result that holds in the environment as it is, with nothing
/// chosen and nothing put off, and no other.
pub proof fn lemma_outlives_reflexive(
    decls: Decls,
    env: EnvView,
    assumptions: Seq<Relation>,
    a: Parameter,
    c: ConstraintsView,
)
    requires
        !overflows(decls, assumptions, seq![Relation::Outlives(a, a)]),
    ensures
        proves(decls, env, assumptions, seq![Relation::Outlives(a, a)], c) <==> c
            == ConstraintsView::none(env),
        ConstraintsView::none(env).unconditionally_true(),
{
    let goal = seq![Relation::Outlives(a, a)];
    let plain = ConstraintsView::none(env);
    let nothing = Seq::<Relation>::empty();
    if c == plain {
        lemma_single_goal(decls, env, assumptions, Relation::Outlives(a, a), plain);
    }
    if proves_wc_list(decls, env, assumptions, goal, c) {
        let c1 = choose|c1: ConstraintsView|
            #[trigger] proves_wc(env, goal.first(), c1) && proves_after(
                decls,
                c1,
                assumptions,
                goal.drop_first(),
                c,
            );
        assert(goal.first() == Relation::Outlives(a, a));
        assert(c1 == plain);
        assert(c1.substitution =~= Seq::empty());
        assert(goal.drop_first() =~= nothing);
        lemma_apply_nothing(assumptions);
        assert(apply_relations(c1.substitution, goal.drop_first()) =~= nothing);
        assert(relations_size(nothing) == 0);
        assert(relations_size(goal) >= 0);
        assert(!overflows(decls, assumptions, nothing));
        let c2 = choose|c2: ConstraintsView|
            proves_wc_list(decls, c1.env, assumptions, nothing, c2) && #[trigger] c1.seq(c2) == c;
        assert(c2 == plain);
        assert(c1.seq(c2).substitution =~= Seq::empty());
    }
}

/// Equality is reflexive: a goal that a parameter equals itself has the
/// result that holds in the environment as it is, and no other.
pub proof fn lemma_equals_reflexive(
    decls: Decls,
    env: EnvView,
    assumptions: Seq<Relation>,
    a: Parameter,
    c: ConstraintsView,
)
    requires
        !overflows(decls, assumptions, seq![Relation::Equals(a, a)]),
    ensures
        proves(decls, env, assumptions, seq![Relation::Equals(a, a)], c) <==> c
            == ConstraintsView::none(env),
{
    let goal = seq![Relation::Equals(a, a)];
    let plain = ConstraintsView::none(env);
    let nothing = Seq::<Relation>::empty();
    if c == plain {
        lemma_single_goal(decls, env, assumptions, Relation::Equals(a, a), plain);
    }
    if proves_wc_list(decls, env, assumptions, goal, c) {
        let c1 = choose|c1: ConstraintsView|
            #[trigger] proves_wc(env, goal.first(), c1) && proves_after(
                decls,
                c1,
                assumptions,
                goal.drop_first(),
                c,
            );
        assert(goal.first() == Relation::Equals(a, a));
        if as_variable(a) is Some {
            assert(a.spec_free_variables()[0] == as_variable(a).unwrap());
        }
        assert(c1 == plain);
        assert(c1.substitution =~= Seq::empty());
        assert(goal.drop_first() =~= nothing);
        lemma_apply_nothing(assumptions);
        assert(apply_relations(c1.substitution, goal.drop_first()) =~= nothing);
        assert(relations_size(nothing) == 0);
        assert(relations_size(goal) >= 0);
        assert(!overflows(decls, assumptions, nothing));
        let c2 = choose|c2: ConstraintsView|
            proves_wc_list(decls, c1.env, assumptions, nothing, c2) && #[trigger] c1.seq(c2) == c;
        assert(c2 == plain);
        assert(c1.seq(c2).substitution =~= Seq::empty());
    }
}

/// `'static` outlives every parameter: the goal has the result that
/// holds in the environment as it is, with nothing chosen and nothing
/// put off.
pub proof fn lemma_static_outlives_everything(
    decls: Decls,
    env: EnvView,
    assumptions: Seq<Relation>,
    a: Parameter,
)
    requires
        !overflows(decls, assumptions, seq![Relation::Outlives(Parameter::Lt(Lt::Static), a)]),
    ensures
        proves(
            decls,
            env,
            assumptions,
            seq![Relation::Outlives(Parameter::Lt(Lt::Static), a)],
            ConstraintsView::none(env),
        ),
        ConstraintsView::none(env).unconditionally_true(),
{
    lemma_single_goal(
        decls,
        env,
        assumptions,
        Relation::Outlives(Parameter::Lt(Lt::Static), a),
        ConstraintsView::none(env),
    );
}

/// A goal too large for the declarations has one result, whatever the
/// limit is: ambiguous, with nothing chosen, in the environment as it
/// was given.
pub proof fn lemma_overflow_is_ambiguous(
    decls: Decls,
    env: EnvView,
    assumptions: Seq<Relation>,
    goal: Seq<Relation>,
    c: ConstraintsView,
)
    requires
        1 + relations_size(assumptions) + 1 + relations_size(goal) > decls.max_size,
    ensures
        proves(decls, env, assumptions, goal, c) <==> c == overflow_result(env),
        overflow_result(env).env == env,
        !overflow_result(env).known_true,
        overflow_result(env).substitution.len() == 0,
{
}

/// An outlives goal is never refuted: between the same terms it holds
/// as it is, and between different terms it has the result that puts the
/// relation off.
pub proof fn lemma_outlives_is_never_refuted(
    decls: Decls,
    env: EnvView,
    assumptions: Seq<Relation>,
    a: Parameter,
    b: Parameter,
)
    requires
        !overflows(decls, assumptions, seq![Relation::Outlives(a, b)]),
    ensures
        a == b ==> proves(
            decls,
            env,
            assumptions,
            seq![Relation::Outlives(a, b)],
            ConstraintsView::none(env),
        ),
        a != b ==> proves(
            decls,
            env,
            assumptions,
            seq![Relation::Outlives(a, b)],
            ConstraintsView::none(env.with_pending(Relation::Outlives(a, b))),
        ),
{
    if a == b {
        lemma_single_goal(
            decls,
            env,
            assumptions,
            Relation::Outlives(a, b),
            ConstraintsView::none(env),
        );
    } else {
        lemma_single_goal(
            decls,
            env,
            assumptions,
            Relation::Outlives(a, b),
            ConstraintsView::none(env.with_pending(Relation::Outlives(a, b))),
        );
    }
}

} // verus!
