//! The result of one proof: the environment it ended in, the values it
//! chose for existential variables, and whether it is certain.

use vstd::prelude::*;
use crate::env::{all_bound, binds_all, contains_variable, Env, EnvView};
use crate::grammar::{Parameter, Quantifier, Variable};
use crate::substitution::{
    compose, compose_substitutions, keys, lemma_apply_bound_parameter, values_bound,
};

verus! {

/// One way in which a goal holds.
#[derive(Debug, PartialEq, Eq, PartialOrd, Ord, Hash)]
pub struct Constraints {
    env: Env,
    known_true: bool,
    substitution: Vec<(Variable, Parameter)>,
}

/// What a `Constraints` holds, as mathematical values.
pub struct ConstraintsView {
    pub env: EnvView,
    /// `false` marks an ambiguous result: neither proved nor refuted.
    pub known_true: bool,
    pub substitution: Seq<(Variable, Parameter)>,
}

/// A substitution that `variables` allows: each key is an existential
/// variable in scope and is bound once, and each value mentions
/// variables in scope only.
pub open spec fn allows(variables: Seq<Variable>, substitution: Seq<(Variable, Parameter)>) -> bool {
    &&& forall|i: int|
        0 <= i < substitution.len() ==> {
            &&& (#[trigger] substitution[i]).0.quantifier == Quantifier::Existential
            &&& variables.contains(substitution[i].0)
            &&& all_bound(variables, substitution[i].1.spec_free_variables())
        }
    &&& forall|i: int, j: int|
        0 <= i < j < substitution.len() ==> (#[trigger] substitution[i]).0 != (
        #[trigger] substitution[j]).0
}

impl ConstraintsView {
    pub open spec fn wf(self) -> bool {
        &&& self.env.wf()
        &&& allows(self.env.variables, self.substitution)
    }

    /// The result that holds in `env` with nothing chosen.
    pub open spec fn none(env: EnvView) -> ConstraintsView {
        ConstraintsView { env, known_true: true, substitution: Seq::empty() }
    }

    /// The same result, marked ambiguous.
    pub open spec fn ambiguous(self) -> ConstraintsView {
        ConstraintsView { known_true: false, ..self }
    }

    /// `self` and after it `next`: the environment that `next` ended
    /// in, certain where both are, and the values that either chose,
    /// those of `self` with the values of `next` put in.
    pub open spec fn seq(self, next: ConstraintsView) -> ConstraintsView {
        ConstraintsView {
            env: next.env,
            known_true: self.known_true && next.known_true,
            substitution: compose(self.substitution, next.substitution),
        }
    }

    /// Certain, and with no variable chosen.
    pub open spec fn unconditionally_true(self) -> bool {
        self.known_true && self.substitution.len() == 0
    }

    /// The result is well formed and its environment extends `base`.
    pub open spec fn is_valid_extension_of(self, base: EnvView) -> bool {
        &&& self.wf()
        &&& self.env.is_valid_extension_of(base)
    }
}

/// An allowed substitution gives no variable two values, and its values
/// mention variables in scope only.
pub proof fn lemma_allowed(variables: Seq<Variable>, substitution: Seq<(Variable, Parameter)>)
    requires
        allows(variables, substitution),
    ensures
        keys(substitution).no_duplicates(),
        values_bound(variables, substitution),
        all_bound(variables, keys(substitution)),
{
    let k = keys(substitution);
    assert forall|i: int, j: int| 0 <= i < k.len() && 0 <= j < k.len() && i != j implies k[i]
        != k[j] by {
        if i < j {
            assert(substitution[i].0 != substitution[j].0);
        } else {
            assert(substitution[j].0 != substitution[i].0);
        }
    }
    assert forall|i: int| 0 <= i < k.len() implies variables.contains(#[trigger] k[i]) by {
        assert(variables.contains(substitution[i].0));
    }
}

/// Two results, one after the other, make a well formed result where
/// the second starts in the environment of the first and chooses for
/// other variables.
pub proof fn lemma_seq(first: ConstraintsView, next: ConstraintsView)
    requires
        first.wf(),
        next.wf(),
        next.env.variables == first.env.variables,
        forall|i: int, j: int|
            0 <= i < first.substitution.len() && 0 <= j < next.substitution.len() ==> (
            #[trigger] first.substitution[i]).0 != (#[trigger] next.substitution[j]).0,
    ensures
        first.seq(next).wf(),
{
    let variables = next.env.variables;
    let s = first.seq(next).substitution;
    let n = first.substitution.len() as int;
    lemma_allowed(variables, next.substitution);
    assert forall|i: int| 0 <= i < s.len() implies {
        &&& (#[trigger] s[i]).0.quantifier == Quantifier::Existential
        &&& variables.contains(s[i].0)
        &&& all_bound(variables, s[i].1.spec_free_variables())
    } by {
        if i < n {
            assert(s[i].0 == first.substitution[i].0);
            lemma_apply_bound_parameter(variables, next.substitution, first.substitution[i].1);
        } else {
            assert(s[i] == next.substitution[i - n]);
        }
    }
    assert forall|i: int, j: int| 0 <= i < j < s.len() implies (#[trigger] s[i]).0 != (
    #[trigger] s[j]).0 by {
        if j < n {
            assert(s[i].0 == first.substitution[i].0 && s[j].0 == first.substitution[j].0);
        } else if i < n {
            assert(s[i].0 == first.substitution[i].0 && s[j] == next.substitution[j - n]);
        } else {
            assert(s[i] == next.substitution[i - n] && s[j] == next.substitution[j - n]);
        }
    }
}

/// Whether `variables` allows `substitution`.
pub fn check_allows(variables: &Vec<Variable>, substitution: &Vec<(Variable, Parameter)>) -> (b:
    bool)
    ensures
        b == allows(variables@, substitution@),
{
    let mut i: usize = 0;
    while i < substitution.len()
        invariant
            i <= substitution.len(),
            allows(variables@, substitution@.take(i as int)),
        decreases substitution.len() - i,
    {
        let key = substitution[i].0;
        if !key.is_existential() || !contains_variable(variables, key) {
            return false;
        }
        let mut fv: Vec<Variable> = Vec::new();
        substitution[i].1.collect_free_variables(&mut fv);
        assert(fv@ =~= substitution@[i as int].1.spec_free_variables());
        if !binds_all(variables, &fv) {
            return false;
        }
        let mut j: usize = 0;
        while j < i
            invariant
                j <= i < substitution.len(),
                key == substitution@[i as int].0,
                forall|k: int| 0 <= k < j ==> (#[trigger] substitution@[k]).0 != key,
            decreases i - j,
        {
            if substitution[j].0 == key {
                return false;
            }
            j += 1;
        }
        proof {
            let before = substitution@.take(i as int);
            let after = substitution@.take(i + 1);
            assert forall|a: int| 0 <= a < after.len() implies {
                &&& (#[trigger] after[a]).0.quantifier == Quantifier::Existential
                &&& variables@.contains(after[a].0)
                &&& all_bound(variables@, after[a].1.spec_free_variables())
            } by {
                if a < i {
                    assert(before[a] == after[a]);
                }
            }
            assert forall|a: int, b: int| 0 <= a < b < after.len() implies (#[trigger] after[a]).0
                != (#[trigger] after[b]).0 by {
                if b < i {
                    assert(before[a] == after[a] && before[b] == after[b]);
                } else {
                    assert(after[a] == substitution@[a]);
                }
            }
        }
        i += 1;
    }
    assert(substitution@.take(substitution.len() as int) =~= substitution@);
    true
}

/// A copy of a substitution.
pub fn clone_substitution(s: &Vec<(Variable, Parameter)>) -> (r: Vec<(Variable, Parameter)>)
    ensures
        r@ == s@,
{
    let mut r: Vec<(Variable, Parameter)> = Vec::new();
    let mut i: usize = 0;
    while i < s.len()
        invariant
            i <= s.len(),
            r@ == s@.take(i as int),
        decreases s.len() - i,
    {
        r.push((s[i].0, s[i].1.clone()));
        assert(s@.take(i + 1) =~= s@.take(i as int).push(s@[i as int]));
        i += 1;
    }
    assert(s@.take(s.len() as int) =~= s@);
    r
}

/// Whether two substitutions hold the same pairs in the same order.
pub fn same_substitution(a: &Vec<(Variable, Parameter)>, b: &Vec<(Variable, Parameter)>) -> (r:
    bool)
    ensures
        r == (a@ == b@),
{
    if a.len() != b.len() {
        return false;
    }
    let mut i: usize = 0;
    while i < a.len()
        invariant
            i <= a.len(),
            a.len() == b.len(),
            forall|j: int| 0 <= j < i ==> a@[j] == b@[j],
        decreases a.len() - i,
    {
        if !(a[i].0 == b[i].0) || !a[i].1.same(&b[i].1) {
            return false;
        }
        i += 1;
    }
    assert(a@ =~= b@);
    true
}

impl View for Constraints {
    type V = ConstraintsView;

    closed spec fn view(&self) -> ConstraintsView {
        ConstraintsView {
            env: self.env@,
            known_true: self.known_true,
            substitution: self.substitution@,
        }
    }
}

impl Constraints {
    #[verifier::type_invariant]
    spec fn inv(self) -> bool {
        allows(self.env@.variables, self.substitution@)
    }

    /// The result that holds in `env` with nothing chosen.
    pub fn none(env: Env) -> (c: Constraints)
        ensures
            c@ == ConstraintsView::none(env@),
            c@.wf(),
    {
        let _ = env.pending();
        Constraints { env, known_true: true, substitution: Vec::new() }
    }

    /// The result in `env` that chooses `substitution`; `None` where
    /// `env` does not allow the substitution.
    pub fn new(env: Env, known_true: bool, substitution: Vec<(Variable, Parameter)>) -> (c: Option<
        Constraints,
    >)
        ensures
            match c {
                Some(c) => c@ == (ConstraintsView {
                    env: env@,
                    known_true,
                    substitution: substitution@,
                }) && c@.wf(),
                None => !allows(env@.variables, substitution@),
            },
    {
        let _ = env.pending();
        if check_allows(env.variables(), &substitution) {
            Some(Constraints { env, known_true, substitution })
        } else {
            None
        }
    }

    /// The result made of the three parts.
    pub(crate) fn from_parts(
        env: Env,
        known_true: bool,
        substitution: Vec<(Variable, Parameter)>,
    ) -> (c: Constraints)
        requires
            allows(env@.variables, substitution@),
        ensures
            c@ == (ConstraintsView { env: env@, known_true, substitution: substitution@ }),
            c@.wf(),
    {
        let _ = env.pending();
        Constraints { env, known_true, substitution }
    }

    /// The same result, marked ambiguous.
    pub fn ambiguous(self) -> (c: Constraints)
        ensures
            c@ == self@.ambiguous(),
    {
        proof {
            use_type_invariant(&self);
        }
        Constraints { env: self.env, known_true: false, substitution: self.substitution }
    }

    pub fn env(&self) -> (env: &Env)
        ensures
            env@ == self@.env,
            self@.wf(),
    {
        proof {
            use_type_invariant(self);
        }
        let _ = self.env.pending();
        &self.env
    }

    pub fn substitution(&self) -> (s: &Vec<(Variable, Parameter)>)
        ensures
            s@ == self@.substitution,
    {
        &self.substitution
    }

    /// Whether the result is certain rather than ambiguous.
    pub fn is_known_true(&self) -> (b: bool)
        ensures
            b == self@.known_true,
    {
        self.known_true
    }

    /// Whether the result is certain and chooses nothing.
    pub fn unconditionally_true(&self) -> (b: bool)
        ensures
            b == self@.unconditionally_true(),
    {
        self.known_true && self.substitution.len() == 0
    }

    /// Whether the environment of the result extends `base`.
    pub fn is_valid_extension_of(&self, base: &Env) -> (b: bool)
        ensures
            b == self@.is_valid_extension_of(base@),
    {
        proof {
            use_type_invariant(self);
        }
        let _ = self.env.pending();
        self.env.is_valid_extension_of(base)
    }

    /// `self` and after it `next`.
    pub fn seq(&self, next: &Constraints) -> (c: Constraints)
        requires
            next@.env.is_valid_extension_of(self@.env),
            forall|i: int, j: int|
                0 <= i < self@.substitution.len() && 0 <= j < next@.substitution.len() ==> (
                #[trigger] self@.substitution[i]).0 != (#[trigger] next@.substitution[j]).0,
        ensures
            c@ == self@.seq(next@),
            c@.wf(),
    {
        let env = next.env().clone();
        let _ = self.env();
        proof {
            lemma_allowed(next@.env.variables, next@.substitution);
            lemma_seq(self@, next@);
        }
        let substitution = compose_substitutions(&self.substitution, &next.substitution);
        Constraints::from_parts(env, self.known_true && next.known_true, substitution)
    }

    /// Whether the two results hold the same.
    pub fn same(&self, other: &Constraints) -> (b: bool)
        ensures
            b == (self@ == other@),
    {
        self.known_true == other.known_true && self.env.same(&other.env) && same_substitution(
            &self.substitution,
            &other.substitution,
        )
    }
}

impl Clone for Constraints {
    fn clone(&self) -> (c: Self)
        ensures
            c@ == self@,
    {
        proof {
            use_type_invariant(self);
        }
        Constraints {
            env: self.env.clone(),
            known_true: self.known_true,
            substitution: clone_substitution(&self.substitution),
        }
    }
}

} // verus!
