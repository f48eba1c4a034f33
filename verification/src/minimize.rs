//! Minimization: before a search, the environment and the terms are
//! rewritten over the variables that the terms mention, numbered in the
//! order in which they first occur, so that goals that differ in the
//! names of their variables alone look alike. Each result of the search
//! is then rewritten back over the variables of the caller.

use vstd::prelude::*;
use crate::constraints::{Constraints, ConstraintsView};
use crate::env::{
    all_bound, contains_variable, lemma_bound_part, lemma_bound_through, lemma_bound_whole, Env,
    EnvView,
};
use crate::grammar::{
    collect_free_variables_of_relations, relations_free_variables, Quantifier, Relation, Variable,
    Wcs,
};
use crate::renaming::{
    firsts, inverse, invert, lemma_inverse, lemma_rename_variable, lemma_renamed_bound_parameter,
    lemma_renamed_bound_relations, lemma_renamed_distinct, lemma_round_trip_relations,
    lemma_round_trip_variable, one_to_one, rename_relations, rename_substitution,
    replace_in_relations, replace_in_substitution, seconds,
};

verus! {

/// The variables of `fv`, each once, in the order in which they first
/// occur.
pub open spec fn first_occurrences(fv: Seq<Variable>) -> Seq<Variable>
    decreases fv.len(),
{
    if fv.len() == 0 {
        seq![]
    } else {
        let before = first_occurrences(fv.drop_last());
        if before.contains(fv.last()) {
            before
        } else {
            before.push(fv.last())
        }
    }
}

/// The renaming that gives the variable at place `j` of `used` the index
/// `j`.
pub open spec fn canonical(used: Seq<Variable>) -> Seq<(Variable, Variable)> {
    Seq::new(
        used.len(),
        |j: int|
            (
                used[j],
                Variable { quantifier: used[j].quantifier, kind: used[j].kind, index: j as usize },
            ),
    )
}

/// The variables that a search for `goal` from `assumptions` in `env`
/// can meet: those of the assumptions, of the goal and of the pending
/// relations, in that order.
pub open spec fn mentioned(env: EnvView, assumptions: Seq<Relation>, goal: Seq<Relation>) -> Seq<
    Variable,
> {
    relations_free_variables(assumptions) + relations_free_variables(goal)
        + relations_free_variables(env.pending)
}

/// The renaming that minimization applies.
pub open spec fn minimizing(env: EnvView, assumptions: Seq<Relation>, goal: Seq<Relation>) -> Seq<
    (Variable, Variable),
> {
    canonical(first_occurrences(mentioned(env, assumptions, goal)))
}

/// The environment over the renamed variables alone.
pub open spec fn shrink_env(pairs: Seq<(Variable, Variable)>, env: EnvView) -> EnvView {
    EnvView {
        variables: seconds(pairs),
        pending: rename_relations(pairs, env.pending),
        bias: env.bias,
    }
}

/// The environment `e` of the minimized search, over the variables of
/// `env_max` again.
pub open spec fn restore_env(
    pairs: Seq<(Variable, Variable)>,
    env_max: EnvView,
    e: EnvView,
) -> EnvView {
    EnvView {
        variables: env_max.variables,
        pending: rename_relations(inverse(pairs), e.pending),
        bias: e.bias,
    }
}

/// What a `Minimization` holds, as mathematical values.
pub struct MinimizationView {
    /// The environment before minimization.
    pub env_max: EnvView,
    /// Which variable of the minimized environment stands for which.
    pub pairs: Seq<(Variable, Variable)>,
}

impl MinimizationView {
    pub open spec fn wf(self) -> bool {
        &&& self.env_max.wf()
        &&& one_to_one(self.pairs)
        &&& all_bound(self.env_max.variables, firsts(self.pairs))
        &&& all_bound(firsts(self.pairs), relations_free_variables(self.env_max.pending))
    }

    /// The minimized environment.
    pub open spec fn env_min(self) -> EnvView {
        shrink_env(self.pairs, self.env_max)
    }

    /// The result `c` of the minimized search, over the variables of the
    /// caller again.
    pub open spec fn reconstitute(self, c: ConstraintsView) -> ConstraintsView {
        ConstraintsView {
            env: restore_env(self.pairs, self.env_max, c.env),
            known_true: c.known_true,
            substitution: rename_substitution(inverse(self.pairs), c.substitution),
        }
    }
}

/// The record of one minimization, by which its results are rewritten
/// back.
#[derive(Debug)]
pub struct Minimization {
    env_max: Env,
    pairs: Vec<(Variable, Variable)>,
}

/// `first_occurrences` holds what `fv` holds, each variable once.
pub proof fn lemma_first_occurrences(fv: Seq<Variable>)
    ensures
        first_occurrences(fv).no_duplicates(),
        first_occurrences(fv).len() <= fv.len(),
        forall|v: Variable| first_occurrences(fv).contains(v) <==> fv.contains(v),
    decreases fv.len(),
{
    if fv.len() > 0 {
        let before = first_occurrences(fv.drop_last());
        let all = first_occurrences(fv);
        lemma_first_occurrences(fv.drop_last());
        assert forall|v: Variable| all.contains(v) <==> fv.contains(v) by {
            if fv.contains(v) {
                let i = choose|i: int| 0 <= i < fv.len() && fv[i] == v;
                if i < fv.len() - 1 {
                    assert(fv.drop_last()[i] == v);
                    assert(fv.drop_last().contains(v));
                    assert(before.contains(v));
                    let k = choose|k: int| 0 <= k < before.len() && before[k] == v;
                    assert(all[k] == v);
                } else if before.contains(v) {
                } else {
                    assert(all[before.len() as int] == v);
                }
            }
            if all.contains(v) {
                let k = choose|k: int| 0 <= k < all.len() && all[k] == v;
                if k < before.len() {
                    assert(before[k] == v);
                    assert(before.contains(v));
                    assert(fv.drop_last().contains(v));
                    let i = choose|i: int| 0 <= i < fv.drop_last().len() && fv.drop_last()[i] == v;
                    assert(fv[i] == v);
                } else {
                    assert(fv[fv.len() - 1] == v);
                }
            }
        }
    }
}

/// The canonical renaming of a list without repeats is one-to-one.
pub proof fn lemma_canonical(used: Seq<Variable>)
    requires
        used.no_duplicates(),
        used.len() <= usize::MAX,
    ensures
        one_to_one(canonical(used)),
        firsts(canonical(used)) =~= used,
{
    let pairs = canonical(used);
    assert(firsts(pairs) =~= used);
    assert forall|i: int, j: int| 0 <= i < j < pairs.len() implies seconds(pairs)[i] != seconds(
        pairs,
    )[j] by {
        assert(seconds(pairs)[i].index == i);
        assert(seconds(pairs)[j].index == j);
    }
}

/// The renaming of a minimization is one-to-one, replaces exactly the
/// variables that the search can meet, and those lie in the environment.
pub proof fn lemma_minimizing(env: EnvView, assumptions: Seq<Relation>, goal: Seq<Relation>)
    requires
        env.wf(),
        env.encloses(assumptions),
        env.encloses(goal),
        mentioned(env, assumptions, goal).len() <= usize::MAX,
    ensures
        (MinimizationView { env_max: env, pairs: minimizing(env, assumptions, goal) }).wf(),
        all_bound(firsts(minimizing(env, assumptions, goal)), relations_free_variables(assumptions)),
        all_bound(firsts(minimizing(env, assumptions, goal)), relations_free_variables(goal)),
        shrink_env(minimizing(env, assumptions, goal), env).wf(),
        shrink_env(minimizing(env, assumptions, goal), env).encloses(
            rename_relations(minimizing(env, assumptions, goal), assumptions),
        ),
        shrink_env(minimizing(env, assumptions, goal), env).encloses(
            rename_relations(minimizing(env, assumptions, goal), goal),
        ),
{
    let fv = mentioned(env, assumptions, goal);
    let used = first_occurrences(fv);
    let pairs = canonical(used);
    lemma_first_occurrences(fv);
    lemma_canonical(used);
    assert(all_bound(used, fv)) by {
        assert forall|i: int| 0 <= i < fv.len() implies used.contains(#[trigger] fv[i]) by {
            assert(fv.contains(fv[i]));
        }
    }
    lemma_bound_part(
        used,
        relations_free_variables(assumptions) + relations_free_variables(goal),
        relations_free_variables(env.pending),
    );
    lemma_bound_part(used, relations_free_variables(assumptions), relations_free_variables(goal));
    lemma_bound_whole(
        env.variables,
        relations_free_variables(assumptions),
        relations_free_variables(goal),
    );
    lemma_bound_whole(
        env.variables,
        relations_free_variables(assumptions) + relations_free_variables(goal),
        relations_free_variables(env.pending),
    );
    assert(all_bound(env.variables, used)) by {
        assert forall|i: int| 0 <= i < used.len() implies env.variables.contains(
            #[trigger] used[i],
        ) by {
            assert(used.contains(used[i]));
            assert(fv.contains(used[i]));
            let k = choose|k: int| 0 <= k < fv.len() && fv[k] == used[i];
            assert(env.variables.contains(fv[k]));
        }
    }
    lemma_renamed_bound_relations(pairs, env.pending);
    lemma_renamed_distinct(pairs, env.pending);
    lemma_renamed_bound_relations(pairs, assumptions);
    lemma_renamed_bound_relations(pairs, goal);
}

/// A result over the minimized environment, rewritten back, is a well
/// formed result that extends the environment before minimization.
pub proof fn lemma_reconstitute(min: MinimizationView, c: ConstraintsView)
    requires
        min.wf(),
        c.is_valid_extension_of(min.env_min()),
    ensures
        min.reconstitute(c).is_valid_extension_of(min.env_max),
{
    let pairs = min.pairs;
    let inv = inverse(pairs);
    let r = min.reconstitute(c);
    lemma_inverse(pairs);
    assert(c.env.variables == seconds(pairs));
    // the pending relations
    lemma_renamed_bound_relations(inv, c.env.pending);
    lemma_bound_through(
        min.env_max.variables,
        firsts(pairs),
        relations_free_variables(r.env.pending),
    );
    lemma_renamed_distinct(inv, c.env.pending);
    lemma_round_trip_relations(pairs, min.env_max.pending);
    assert(min.env_max.pending.is_prefix_of(r.env.pending)) by {
        let shrunk = rename_relations(pairs, min.env_max.pending);
        let back = rename_relations(inv, shrunk);
        assert(back == min.env_max.pending);
        assert forall|i: int| 0 <= i < back.len() implies back[i] == r.env.pending[i] by {
            assert(shrunk[i] == c.env.pending[i]);
        }
        assert(back =~= r.env.pending.subrange(0, back.len() as int));
    }
    // the substitution
    let s = c.substitution;
    let t = r.substitution;
    assert forall|i: int| 0 <= i < t.len() implies {
        &&& (#[trigger] t[i]).0.quantifier == Quantifier::Existential
        &&& r.env.variables.contains(t[i].0)
        &&& all_bound(r.env.variables, t[i].1.spec_free_variables())
    } by {
        assert(s[i].0.quantifier == Quantifier::Existential);
        lemma_rename_variable(inv, s[i].0);
        let j = choose|j: int| 0 <= j < firsts(pairs).len() && firsts(pairs)[j] == t[i].0;
        assert(min.env_max.variables.contains(firsts(pairs)[j]));
        lemma_renamed_bound_parameter(inv, s[i].1);
        lemma_bound_through(min.env_max.variables, firsts(pairs), t[i].1.spec_free_variables());
    }
    assert forall|i: int, j: int| 0 <= i < j < t.len() implies (#[trigger] t[i]).0 != (
    #[trigger] t[j]).0 by {
        assert(s[i].0 != s[j].0);
        lemma_round_trip_variable(inv, s[i].0);
        lemma_round_trip_variable(inv, s[j].0);
    }
}

impl View for Minimization {
    type V = MinimizationView;

    closed spec fn view(&self) -> MinimizationView {
        MinimizationView { env_max: self.env_max@, pairs: self.pairs@ }
    }
}

/// The variables of `fv`, each once, in the order in which they first
/// occur.
pub fn dedup_variables(fv: &Vec<Variable>) -> (used: Vec<Variable>)
    ensures
        used@ == first_occurrences(fv@),
{
    let mut used: Vec<Variable> = Vec::new();
    let mut i: usize = 0;
    while i < fv.len()
        invariant
            i <= fv.len(),
            used@ == first_occurrences(fv@.take(i as int)),
        decreases fv.len() - i,
    {
        assert(fv@.take(i + 1).drop_last() =~= fv@.take(i as int));
        if !contains_variable(&used, fv[i]) {
            used.push(fv[i]);
        }
        i += 1;
    }
    assert(fv@.take(fv.len() as int) =~= fv@);
    used
}

/// Rewrites `env`, `assumptions` and `goal` over the variables that they
/// mention, numbered from 0 in the order in which they first occur, and
/// returns with them the record by which results are rewritten back.
pub fn minimize(env: Env, term: (Wcs, Wcs)) -> (out: (Env, (Wcs, Wcs), Minimization))
    requires
        env@.encloses(term.0@),
        env@.encloses(term.1@),
    ensures
        out.2@.wf(),
        out.2@.env_max == env@,
        out.2@.pairs == minimizing(env@, term.0@, term.1@),
        out.0@ == out.2@.env_min(),
        out.0@.wf(),
        (out.1).0@ == rename_relations(out.2@.pairs, term.0@),
        (out.1).1@ == rename_relations(out.2@.pairs, term.1@),
        out.0@.encloses((out.1).0@),
        out.0@.encloses((out.1).1@),
        mentioned(env@, term.0@, term.1@).len() <= usize::MAX,
{
    let (assumptions, goal) = term;
    let mut fv: Vec<Variable> = Vec::new();
    collect_free_variables_of_relations(&assumptions.clauses, &mut fv);
    collect_free_variables_of_relations(&goal.clauses, &mut fv);
    collect_free_variables_of_relations(env.pending(), &mut fv);
    assert(fv@ =~= mentioned(env@, assumptions@, goal@));
    let used = dedup_variables(&fv);
    proof {
        assert(fv@.len() == fv.len());
        lemma_minimizing(env@, assumptions@, goal@);
    }
    let mut pairs: Vec<(Variable, Variable)> = Vec::new();
    let mut variables: Vec<Variable> = Vec::new();
    let mut j: usize = 0;
    while j < used.len()
        invariant
            j <= used.len(),
            pairs@.len() == j,
            variables@.len() == j,
            forall|k: int| 0 <= k < j ==> pairs@[k] == canonical(used@)[k],
            forall|k: int| 0 <= k < j ==> variables@[k] == canonical(used@)[k].1,
        decreases used.len() - j,
    {
        let v = used[j];
        let w = Variable { quantifier: v.quantifier, kind: v.kind, index: j };
        pairs.push((v, w));
        variables.push(w);
        j += 1;
    }
    assert(pairs@ =~= canonical(used@));
    assert(variables@ =~= seconds(pairs@));
    let pending = replace_in_relations(&pairs, env.pending());
    let assumptions_min = Wcs::from_vec(replace_in_relations(&pairs, &assumptions.clauses));
    let goal_min = Wcs::from_vec(replace_in_relations(&pairs, &goal.clauses));
    let env_min = Env::from_parts(variables, pending, env.bias());
    (env_min, (assumptions_min, goal_min), Minimization { env_max: env, pairs })
}

impl Minimization {
    #[verifier::type_invariant]
    spec fn inv(self) -> bool {
        self@.wf()
    }

    /// The environment before minimization.
    pub fn env_max(&self) -> (env: &Env)
        ensures
            env@ == self@.env_max,
            self@.wf(),
    {
        proof {
            use_type_invariant(self);
        }
        &self.env_max
    }

    /// Rewrites a result of the minimized search over the variables of
    /// the caller.
    pub fn reconstitute(&self, c: Constraints) -> (r: Constraints)
        requires
            c@.env.is_valid_extension_of(self@.env_min()),
        ensures
            r@ == self@.reconstitute(c@),
            r@.is_valid_extension_of(self@.env_max),
    {
        proof {
            use_type_invariant(self);
        }
        let inv = invert(&self.pairs);
        let env_c = c.env();
        proof {
            lemma_inverse(self.pairs@);
            lemma_reconstitute(self@, c@);
        }
        let pending = replace_in_relations(&inv, env_c.pending());
        let substitution = replace_in_substitution(&inv, c.substitution());
        let variables = self.env_max.variables().clone();
        assert(variables@ =~= self.env_max@.variables);
        let env = Env::from_parts(variables, pending, env_c.bias());
        Constraints::from_parts(env, c.is_known_true(), substitution)
    }
}

} // verus!
