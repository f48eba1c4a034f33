//! The environment of a proof: the variables in scope, the relations
//! whose proof was put off, and the bias of the search.

use vstd::prelude::*;
use crate::grammar::{
    clone_relations, collect_free_variables_of_relations, relations_free_variables,
    same_relations, ParameterKind, Quantifier, Relation, Variable, Wcs,
};

verus! {

/// How an answer that is neither proved nor refuted is to be read.
#[derive(Clone, Copy, Debug, PartialEq, Eq, PartialOrd, Ord, Hash, Structural)]
pub enum Bias {
    /// Prefer to assume failure: never claim a proof that may not exist.
    Soundness,
    /// Prefer to assume success: never deny a proof that may exist.
    Completeness,
}

/// The variables in scope (oldest first), the pending relations (oldest
/// first, none twice) and the bias.
#[derive(Debug, PartialEq, Eq, PartialOrd, Ord, Hash)]
pub struct Env {
    variables: Vec<Variable>,
    pending: Vec<Relation>,
    bias: Bias,
}

/// What an environment holds, as mathematical values.
pub struct EnvView {
    pub variables: Seq<Variable>,
    pub pending: Seq<Relation>,
    pub bias: Bias,
}

/// Every variable of `fv` is among `variables`.
pub open spec fn all_bound(variables: Seq<Variable>, fv: Seq<Variable>) -> bool {
    forall|i: int| 0 <= i < fv.len() ==> variables.contains(#[trigger] fv[i])
}

/// No relation occurs twice in `s`.
pub open spec fn distinct(s: Seq<Relation>) -> bool {
    forall|i: int, j: int| 0 <= i < j < s.len() ==> s[i] != s[j]
}

/// The index after the largest index in `variables`; 0 where there is none.
pub open spec fn next_index(variables: Seq<Variable>) -> nat
    decreases variables.len(),
{
    if variables.len() == 0 {
        0
    } else {
        let rest = next_index(variables.drop_last());
        if variables.last().index >= rest {
            (variables.last().index + 1) as nat
        } else {
            rest
        }
    }
}

impl EnvView {
    /// The environment binds every variable of `fv`.
    pub open spec fn binds(self, fv: Seq<Variable>) -> bool {
        all_bound(self.variables, fv)
    }

    pub open spec fn encloses_relation(self, r: Relation) -> bool {
        self.binds(r.spec_free_variables())
    }

    pub open spec fn encloses(self, wcs: Seq<Relation>) -> bool {
        self.binds(relations_free_variables(wcs))
    }

    /// The pending relations mention bound variables only, and none is
    /// held twice.
    pub open spec fn wf(self) -> bool {
        &&& self.encloses(self.pending)
        &&& distinct(self.pending)
    }

    /// The environment with `r` among its pending relations.
    pub open spec fn with_pending(self, r: Relation) -> EnvView {
        if self.pending.contains(r) {
            self
        } else {
            EnvView { pending: self.pending.push(r), ..self }
        }
    }

    /// `self` extends `base`: the same bias and the same variables, so
    /// that nothing unbound in `base` is bound in `self`, and the pending
    /// relations of `base` first, in the same order.
    pub open spec fn is_valid_extension_of(self, base: EnvView) -> bool {
        &&& self.bias == base.bias
        &&& self.variables == base.variables
        &&& base.pending.is_prefix_of(self.pending)
    }
}

/// The variables of a member of a list of relations are variables of the
/// list.
pub proof fn lemma_free_variables_member(s: Seq<Relation>, k: int, variables: Seq<Variable>)
    requires
        0 <= k < s.len(),
        all_bound(variables, relations_free_variables(s)),
    ensures
        all_bound(variables, s[k].spec_free_variables()),
    decreases s.len(),
{
    let all = relations_free_variables(s);
    let head = relations_free_variables(s.drop_last());
    let tail = s.last().spec_free_variables();
    if k == s.len() - 1 {
        assert forall|i: int| 0 <= i < tail.len() implies variables.contains(#[trigger] tail[i]) by {
            assert(all[head.len() + i] == tail[i]);
        }
    } else {
        assert forall|i: int| 0 <= i < head.len() implies variables.contains(#[trigger] head[i]) by {
            assert(all[i] == head[i]);
        }
        lemma_free_variables_member(s.drop_last(), k, variables);
    }
}

/// A list of relations is enclosed where each of its members is.
pub proof fn lemma_free_variables_all(s: Seq<Relation>, variables: Seq<Variable>)
    requires
        forall|k: int|
            0 <= k < s.len() ==> all_bound(variables, (#[trigger] s[k]).spec_free_variables()),
    ensures
        all_bound(variables, relations_free_variables(s)),
    decreases s.len(),
{
    if s.len() > 0 {
        assert forall|k: int| 0 <= k < s.drop_last().len() implies all_bound(
            variables,
            (#[trigger] s.drop_last()[k]).spec_free_variables(),
        ) by {
            assert(s.drop_last()[k] == s[k]);
        }
        lemma_free_variables_all(s.drop_last(), variables);
        assert(all_bound(variables, s[s.len() - 1].spec_free_variables()));
    }
}

/// Binding more variables keeps bound what was bound.
pub proof fn lemma_bound_in_extension(small: Seq<Variable>, large: Seq<Variable>, fv: Seq<Variable>)
    requires
        small.is_prefix_of(large),
        all_bound(small, fv),
    ensures
        all_bound(large, fv),
{
    assert forall|i: int| 0 <= i < fv.len() implies large.contains(#[trigger] fv[i]) by {
        let j = choose|j: int| 0 <= j < small.len() && small[j] == fv[i];
        assert(large[j] == fv[i]);
    }
}

/// A part of a list is bound by whatever binds the list.
pub proof fn lemma_bound_part(variables: Seq<Variable>, a: Seq<Variable>, b: Seq<Variable>)
    requires
        all_bound(variables, a + b),
    ensures
        all_bound(variables, a),
        all_bound(variables, b),
{
    assert forall|i: int| 0 <= i < a.len() implies variables.contains(#[trigger] a[i]) by {
        assert((a + b)[i] == a[i]);
    }
    assert forall|i: int| 0 <= i < b.len() implies variables.contains(#[trigger] b[i]) by {
        assert((a + b)[a.len() + i] == b[i]);
    }
}

/// What binds two lists binds the two in a row.
pub proof fn lemma_bound_whole(variables: Seq<Variable>, a: Seq<Variable>, b: Seq<Variable>)
    requires
        all_bound(variables, a),
        all_bound(variables, b),
    ensures
        all_bound(variables, a + b),
{
    assert forall|i: int| 0 <= i < (a + b).len() implies variables.contains(#[trigger] (a + b)[i]) by {
        if i < a.len() {
            assert((a + b)[i] == a[i]);
        } else {
            assert((a + b)[i] == b[i - a.len()]);
        }
    }
}

/// Being bound passes along: what binds `middle` binds what `middle`
/// binds.
pub proof fn lemma_bound_through(outer: Seq<Variable>, middle: Seq<Variable>, fv: Seq<Variable>)
    requires
        all_bound(outer, middle),
        all_bound(middle, fv),
    ensures
        all_bound(outer, fv),
{
    assert forall|i: int| 0 <= i < fv.len() implies outer.contains(#[trigger] fv[i]) by {
        let j = choose|j: int| 0 <= j < middle.len() && middle[j] == fv[i];
        assert(outer.contains(middle[j]));
    }
}

/// Putting a relation off keeps an environment well formed.
pub proof fn lemma_pending_wf(env: EnvView, r: Relation)
    requires
        env.wf(),
        env.encloses_relation(r),
    ensures
        env.with_pending(r).wf(),
{
    if !env.pending.contains(r) {
        let grown = env.pending.push(r);
        assert forall|k: int| 0 <= k < grown.len() implies all_bound(
            env.variables,
            (#[trigger] grown[k]).spec_free_variables(),
        ) by {
            if k < env.pending.len() {
                lemma_free_variables_member(env.pending, k, env.variables);
            }
        }
        lemma_free_variables_all(grown, env.variables);
    }
}

/// Every index in `variables` lies below `next_index(variables)`.
pub proof fn lemma_next_index_bounds(variables: Seq<Variable>)
    ensures
        forall|i: int|
            0 <= i < variables.len() ==> (#[trigger] variables[i]).index < next_index(variables),
    decreases variables.len(),
{
    if variables.len() > 0 {
        lemma_next_index_bounds(variables.drop_last());
        assert forall|i: int| 0 <= i < variables.len() implies (#[trigger] variables[i]).index
            < next_index(variables) by {
            if i < variables.len() - 1 {
                assert(variables.drop_last()[i] == variables[i]);
            }
        }
    }
}

/// Whether `v` is among `variables`.
pub fn contains_variable(variables: &Vec<Variable>, v: Variable) -> (b: bool)
    ensures
        b == variables@.contains(v),
{
    let mut i: usize = 0;
    while i < variables.len()
        invariant
            i <= variables.len(),
            forall|j: int| 0 <= j < i ==> variables@[j] != v,
        decreases variables.len() - i,
    {
        if variables[i] == v {
            return true;
        }
        i += 1;
    }
    false
}

/// Whether every variable of `fv` is among `variables`.
pub fn binds_all(variables: &Vec<Variable>, fv: &Vec<Variable>) -> (b: bool)
    ensures
        b == all_bound(variables@, fv@),
{
    let mut i: usize = 0;
    while i < fv.len()
        invariant
            i <= fv.len(),
            forall|j: int| 0 <= j < i ==> variables@.contains(#[trigger] fv@[j]),
        decreases fv.len() - i,
    {
        if !contains_variable(variables, fv[i]) {
            return false;
        }
        i += 1;
    }
    true
}

/// Whether `r` is among `relations`.
pub fn contains_relation(relations: &Vec<Relation>, r: &Relation) -> (b: bool)
    ensures
        b == relations@.contains(*r),
{
    let mut i: usize = 0;
    while i < relations.len()
        invariant
            i <= relations.len(),
            forall|j: int| 0 <= j < i ==> relations@[j] != *r,
        decreases relations.len() - i,
    {
        if relations[i].same(r) {
            return true;
        }
        i += 1;
    }
    false
}

impl View for Env {
    type V = EnvView;

    closed spec fn view(&self) -> EnvView {
        EnvView { variables: self.variables@, pending: self.pending@, bias: self.bias }
    }
}

impl Env {
    #[verifier::type_invariant]
    spec fn inv(self) -> bool {
        self@.wf()
    }

    /// An environment with no variable and no pending relation.
    pub fn new(bias: Bias) -> (env: Env)
        ensures
            env@ == (EnvView { variables: Seq::empty(), pending: Seq::empty(), bias }),
    {
        Env { variables: Vec::new(), pending: Vec::new(), bias }
    }

    /// An environment over `variables`, in that order, with no pending
    /// relation.
    pub fn with_variables(variables: Vec<Variable>, bias: Bias) -> (env: Env)
        ensures
            env@ == (EnvView { variables: variables@, pending: Seq::empty(), bias }),
    {
        Env { variables, pending: Vec::new(), bias }
    }

    pub fn bias(&self) -> (b: Bias)
        ensures
            b == self@.bias,
    {
        self.bias
    }

    /// The same environment under another bias.
    pub fn with_bias(self, bias: Bias) -> (env: Env)
        ensures
            env@ == (EnvView { bias, ..self@ }),
    {
        proof {
            use_type_invariant(&self);
        }
        Env { variables: self.variables, pending: self.pending, bias }
    }

    pub fn variables(&self) -> (v: &Vec<Variable>)
        ensures
            v@ == self@.variables,
    {
        &self.variables
    }

    pub fn pending(&self) -> (p: &Vec<Relation>)
        ensures
            p@ == self@.pending,
            self@.wf(),
    {
        proof {
            use_type_invariant(self);
        }
        &self.pending
    }

    /// Whether the environment binds `v`.
    pub fn contains(&self, v: Variable) -> (b: bool)
        ensures
            b == self@.variables.contains(v),
    {
        contains_variable(&self.variables, v)
    }

    /// Whether the environment binds every variable of `r`.
    pub fn encloses_relation(&self, r: &Relation) -> (b: bool)
        ensures
            b == self@.encloses_relation(*r),
    {
        let mut fv: Vec<Variable> = Vec::new();
        r.collect_free_variables(&mut fv);
        assert(fv@ =~= r.spec_free_variables());
        binds_all(&self.variables, &fv)
    }

    /// Whether the environment binds every variable of `wcs`.
    pub fn encloses(&self, wcs: &Wcs) -> (b: bool)
        ensures
            b == self@.encloses(wcs@),
    {
        let fv = wcs.free_variables();
        binds_all(&self.variables, &fv)
    }

    /// Brings a variable into scope whose index no variable in scope
    /// has, and returns it; `None`, with the environment unchanged, where
    /// no index is left.
    pub fn fresh_variable(self, quantifier: Quantifier, kind: ParameterKind) -> (r: (
        Env,
        Option<Variable>,
    ))
        ensures
            next_index(self@.variables) > usize::MAX ==> r.1 is None && r.0@ == self@,
            next_index(self@.variables) <= usize::MAX ==> r.1 == Some(
                Variable { quantifier, kind, index: next_index(self@.variables) as usize },
            ) && r.0@ == (EnvView { variables: self@.variables.push(r.1.unwrap()), ..self@ })
                && !self@.variables.contains(r.1.unwrap()),
    {
        proof {
            use_type_invariant(&self);
        }
        let Env { variables, pending, bias } = self;
        let mut variables = variables;
        let mut next: Option<usize> = Some(0);
        let mut i: usize = 0;
        while i < variables.len()
            invariant
                i <= variables.len(),
                match next {
                    Some(n) => n == next_index(variables@.take(i as int)),
                    None => next_index(variables@.take(i as int)) > usize::MAX,
                },
            decreases variables.len() - i,
        {
            assert(variables@.take(i + 1).drop_last() =~= variables@.take(i as int));
            next =
            match next {
                None => None,
                Some(n) => if variables[i].index >= n {
                    variables[i].index.checked_add(1)
                } else {
                    Some(n)
                },
            };
            i += 1;
        }
        assert(variables@.take(variables.len() as int) =~= variables@);
        match next {
            None => (Env { variables, pending, bias }, None),
            Some(index) => {
                let v = Variable { quantifier, kind, index };
                proof {
                    lemma_next_index_bounds(variables@);
                    lemma_bound_in_extension(
                        variables@,
                        variables@.push(v),
                        relations_free_variables(pending@),
                    );
                }
                variables.push(v);
                (Env { variables, pending, bias }, Some(v))
            },
        }
    }

    /// Takes the variable that came into scope last out of scope and
    /// returns it; `None`, with the environment unchanged, where no
    /// variable is in scope or a pending relation mentions that variable
    /// while no older binding of it remains.
    pub fn pop_variable(self) -> (r: (Env, Option<Variable>))
        ensures
            match r.1 {
                Some(v) => self@.variables.len() > 0 && v == self@.variables.last() && r.0@ == (
                EnvView { variables: self@.variables.drop_last(), ..self@ }),
                None => r.0@ == self@ && (self@.variables.len() == 0 || !all_bound(
                    self@.variables.drop_last(),
                    relations_free_variables(self@.pending),
                )),
            },
    {
        proof {
            use_type_invariant(&self);
        }
        let Env { variables, pending, bias } = self;
        let mut variables = variables;
        if variables.len() == 0 {
            return (Env { variables, pending, bias }, None);
        }
        let ghost before = variables@;
        let last = variables[variables.len() - 1];
        let mut fv: Vec<Variable> = Vec::new();
        collect_free_variables_of_relations(&pending, &mut fv);
        assert(fv@ =~= relations_free_variables(pending@));
        variables.pop();
        if binds_all(&variables, &fv) {
            (Env { variables, pending, bias }, Some(last))
        } else {
            variables.push(last);
            assert(variables@ =~= before);
            (Env { variables, pending, bias }, None)
        }
    }

    /// Puts off the proof of `r`: the environment with `r` among its
    /// pending relations.
    pub fn with_pending(self, r: Relation) -> (env: Env)
        requires
            self@.encloses_relation(r),
        ensures
            env@ == self@.with_pending(r),
    {
        proof {
            use_type_invariant(&self);
        }
        let Env { variables, pending, bias } = self;
        let mut pending = pending;
        if contains_relation(&pending, &r) {
            Env { variables, pending, bias }
        } else {
            proof {
                let grown = pending@.push(r);
                assert forall|k: int| 0 <= k < grown.len() implies all_bound(
                    variables@,
                    (#[trigger] grown[k]).spec_free_variables(),
                ) by {
                    if k < pending@.len() {
                        lemma_free_variables_member(pending@, k, variables@);
                    }
                }
                lemma_free_variables_all(grown, variables@);
            }
            pending.push(r);
            Env { variables, pending, bias }
        }
    }

    /// Whether `self` extends `base`.
    pub fn is_valid_extension_of(&self, base: &Env) -> (b: bool)
        ensures
            b == self@.is_valid_extension_of(base@),
    {
        if !(self.bias == base.bias) {
            return false;
        }
        if base.variables.len() != self.variables.len() || base.pending.len() > self.pending.len() {
            return false;
        }
        let mut i: usize = 0;
        while i < base.variables.len()
            invariant
                i <= base.variables.len() == self.variables.len(),
                forall|j: int| 0 <= j < i ==> base.variables@[j] == self.variables@[j],
            decreases base.variables.len() - i,
        {
            if !(base.variables[i] == self.variables[i]) {
                return false;
            }
            i += 1;
        }
        assert(base.variables@ =~= self.variables@);
        let mut k: usize = 0;
        while k < base.pending.len()
            invariant
                k <= base.pending.len() <= self.pending.len(),
                forall|j: int| 0 <= j < k ==> base.pending@[j] == self.pending@[j],
            decreases base.pending.len() - k,
        {
            if !base.pending[k].same(&self.pending[k]) {
                return false;
            }
            k += 1;
        }
        true
    }

    /// The environment made of the three parts.
    pub(crate) fn from_parts(variables: Vec<Variable>, pending: Vec<Relation>, bias: Bias) -> (env:
        Env)
        requires
            (EnvView { variables: variables@, pending: pending@, bias }).wf(),
        ensures
            env@ == (EnvView { variables: variables@, pending: pending@, bias }),
    {
        Env { variables, pending, bias }
    }

    /// Whether the two environments hold the same.
    pub fn same(&self, other: &Env) -> (b: bool)
        ensures
            b == (self@ == other@),
    {
        if !(self.bias == other.bias) || self.variables.len() != other.variables.len() {
            return false;
        }
        let mut i: usize = 0;
        while i < self.variables.len()
            invariant
                i <= self.variables.len(),
                self.variables.len() == other.variables.len(),
                forall|j: int| 0 <= j < i ==> self.variables@[j] == other.variables@[j],
            decreases self.variables.len() - i,
        {
            if !(self.variables[i] == other.variables[i]) {
                return false;
            }
            i += 1;
        }
        assert(self.variables@ =~= other.variables@);
        same_relations(&self.pending, &other.pending)
    }
}

impl Clone for Env {
    fn clone(&self) -> (env: Self)
        ensures
            env@ == self@,
    {
        proof {
            use_type_invariant(self);
        }
        let variables = self.variables.clone();
        assert(variables@ =~= self.variables@);
        Env { variables, pending: clone_relations(&self.pending), bias: self.bias }
    }
}

} // verus!
