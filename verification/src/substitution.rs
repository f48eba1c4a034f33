//! Substitutions: the values chosen for variables, applied to terms.

use vstd::prelude::*;
use crate::env::{
    all_bound, lemma_bound_part, lemma_bound_whole, lemma_free_variables_all,
    lemma_free_variables_member,
};
use crate::grammar::{
    relations_free_variables, Lt, Parameter, ParameterKind, Quantifier, Relation, Ty, Variable,
};
use crate::renaming::{
    firsts, lemma_rename_variable, lemma_round_trip_variable, lemma_sides_bound, one_to_one,
    rename_lt, rename_parameter, rename_relations, rename_substitution, rename_ty, rename_variable,
};

verus! {

/// The variables that a substitution gives a value.
pub open spec fn keys(s: Seq<(Variable, Parameter)>) -> Seq<Variable> {
    Seq::new(s.len(), |i: int| s[i].0)
}

/// The value that the substitution gives `v`, where it gives one.
pub open spec fn value_of(s: Seq<(Variable, Parameter)>, v: Variable) -> Option<Parameter> {
    if keys(s).contains(v) {
        Some(s[keys(s).index_of(v)].1)
    } else {
        None
    }
}

/// Every value of the substitution mentions variables among `variables`
/// only.
pub open spec fn values_bound(variables: Seq<Variable>, s: Seq<(Variable, Parameter)>) -> bool {
    forall|i: int|
        0 <= i < s.len() ==> all_bound(variables, (#[trigger] s[i]).1.spec_free_variables())
}

/// A lifetime variable with a lifetime for its value takes that value;
/// every other lifetime stays.
pub open spec fn apply_lt(s: Seq<(Variable, Parameter)>, lt: Lt) -> Lt {
    match lt {
        Lt::Static => lt,
        Lt::Var(v) => match value_of(s, v) {
            Some(Parameter::Lt(value)) => value,
            _ => lt,
        },
    }
}

/// A type variable with a type for its value takes that value; the
/// parts of a reference are substituted in turn.
pub open spec fn apply_ty(s: Seq<(Variable, Parameter)>, ty: Ty) -> Ty
    decreases ty,
{
    match ty {
        Ty::Var(v) => match value_of(s, v) {
            Some(Parameter::Ty(value)) => value,
            _ => ty,
        },
        Ty::Scalar(_) => ty,
        Ty::Ref(lt, inner) => Ty::Ref(apply_lt(s, lt), Box::new(apply_ty(s, *inner))),
    }
}

pub open spec fn apply_parameter(s: Seq<(Variable, Parameter)>, p: Parameter) -> Parameter {
    match p {
        Parameter::Ty(ty) => Parameter::Ty(apply_ty(s, ty)),
        Parameter::Lt(lt) => Parameter::Lt(apply_lt(s, lt)),
    }
}

pub open spec fn apply_relation(s: Seq<(Variable, Parameter)>, r: Relation) -> Relation {
    match r {
        Relation::Equals(a, b) => Relation::Equals(apply_parameter(s, a), apply_parameter(s, b)),
        Relation::Outlives(a, b) => Relation::Outlives(
            apply_parameter(s, a),
            apply_parameter(s, b),
        ),
    }
}

pub open spec fn apply_relations(s: Seq<(Variable, Parameter)>, goals: Seq<Relation>) -> Seq<
    Relation,
> {
    Seq::new(goals.len(), |i: int| apply_relation(s, goals[i]))
}

/// The substitution `first` with `next` applied to its values, followed
/// by `next`: what comes of choosing `first` and after it `next`.
pub open spec fn compose(first: Seq<(Variable, Parameter)>, next: Seq<(Variable, Parameter)>) -> Seq<
    (Variable, Parameter),
> {
    Seq::new(first.len(), |i: int| (first[i].0, apply_parameter(next, first[i].1))) + next
}

/// The variable that a parameter is, where it is one whose kind is that
/// of the parameter.
pub open spec fn as_variable(p: Parameter) -> Option<Variable> {
    match p {
        Parameter::Lt(Lt::Var(v)) => if v.kind == ParameterKind::Lt {
            Some(v)
        } else {
            None
        },
        Parameter::Ty(Ty::Var(v)) => if v.kind == ParameterKind::Ty {
            Some(v)
        } else {
            None
        },
        _ => None,
    }
}

/// `a` is an existential variable that can take `b` for its value: `b`
/// is of the same kind and does not mention the variable.
pub open spec fn can_bind(a: Parameter, b: Parameter) -> bool {
    &&& as_variable(a) is Some
    &&& as_variable(a).unwrap().quantifier == Quantifier::Existential
    &&& (a is Lt) == (b is Lt)
    &&& !b.spec_free_variables().contains(as_variable(a).unwrap())
}

/// `v` is a side of an equality among `goals`.
pub open spec fn bindable(goals: Seq<Relation>, v: Variable) -> bool {
    exists|i: int|
        0 <= i < goals.len() && (#[trigger] goals[i]) is Equals && (as_variable(goals[i].lhs())
            == Some(v) || as_variable(goals[i].rhs()) == Some(v))
}

/// Putting no values in leaves a type as it is.
pub proof fn lemma_apply_nothing_ty(ty: Ty)
    ensures
        apply_ty(Seq::empty(), ty) == ty,
    decreases ty,
{
    assert(keys(Seq::<(Variable, Parameter)>::empty()) =~= Seq::<Variable>::empty());
    match ty {
        Ty::Ref(_, inner) => lemma_apply_nothing_ty(*inner),
        _ => {},
    }
}

/// Putting no values in leaves a list of relations as it is.
pub proof fn lemma_apply_nothing(goals: Seq<Relation>)
    ensures
        apply_relations(Seq::empty(), goals) == goals,
{
    assert(keys(Seq::<(Variable, Parameter)>::empty()) =~= Seq::<Variable>::empty());
    assert forall|i: int| 0 <= i < goals.len() implies apply_relations(Seq::empty(), goals)[i]
        == goals[i] by {
        match goals[i].lhs() {
            Parameter::Ty(ty) => lemma_apply_nothing_ty(ty),
            _ => {},
        }
        match goals[i].rhs() {
            Parameter::Ty(ty) => lemma_apply_nothing_ty(ty),
            _ => {},
        }
    }
    assert(apply_relations(Seq::empty(), goals) =~= goals);
}

/// The value found for a key is the value paired with it.
pub proof fn lemma_value_hit(s: Seq<(Variable, Parameter)>, i: int)
    requires
        keys(s).no_duplicates(),
        0 <= i < s.len(),
    ensures
        value_of(s, s[i].0) == Some(s[i].1),
{
    let k = keys(s);
    assert(k[i] == s[i].0);
    let j = k.index_of(s[i].0);
    assert(k[j] == k[i]);
}

/// The variables of a substituted lifetime come from the lifetime or
/// from the values.
pub proof fn lemma_apply_bound_lt(variables: Seq<Variable>, s: Seq<(Variable, Parameter)>, lt: Lt)
    requires
        all_bound(variables, lt.spec_free_variables()),
        values_bound(variables, s),
    ensures
        all_bound(variables, apply_lt(s, lt).spec_free_variables()),
{
    match lt {
        Lt::Static => {},
        Lt::Var(v) => {
            if keys(s).contains(v) {
                let j = keys(s).index_of(v);
                assert(keys(s)[j] == v);
                assert(all_bound(variables, s[j].1.spec_free_variables()));
            }
        },
    }
}

/// The variables of a substituted type come from the type or from the
/// values.
pub proof fn lemma_apply_bound_ty(variables: Seq<Variable>, s: Seq<(Variable, Parameter)>, ty: Ty)
    requires
        all_bound(variables, ty.spec_free_variables()),
        values_bound(variables, s),
    ensures
        all_bound(variables, apply_ty(s, ty).spec_free_variables()),
    decreases ty,
{
    match ty {
        Ty::Var(v) => {
            if keys(s).contains(v) {
                let j = keys(s).index_of(v);
                assert(keys(s)[j] == v);
                assert(all_bound(variables, s[j].1.spec_free_variables()));
            }
        },
        Ty::Scalar(_) => {},
        Ty::Ref(lt, inner) => {
            lemma_bound_part(
                variables,
                lt.spec_free_variables(),
                inner.spec_free_variables(),
            );
            lemma_apply_bound_lt(variables, s, lt);
            lemma_apply_bound_ty(variables, s, *inner);
            lemma_bound_whole(
                variables,
                apply_lt(s, lt).spec_free_variables(),
                apply_ty(s, *inner).spec_free_variables(),
            );
        },
    }
}

pub proof fn lemma_apply_bound_parameter(
    variables: Seq<Variable>,
    s: Seq<(Variable, Parameter)>,
    p: Parameter,
)
    requires
        all_bound(variables, p.spec_free_variables()),
        values_bound(variables, s),
    ensures
        all_bound(variables, apply_parameter(s, p).spec_free_variables()),
{
    match p {
        Parameter::Ty(ty) => lemma_apply_bound_ty(variables, s, ty),
        Parameter::Lt(lt) => lemma_apply_bound_lt(variables, s, lt),
    }
}

pub proof fn lemma_apply_bound_relation(
    variables: Seq<Variable>,
    s: Seq<(Variable, Parameter)>,
    r: Relation,
)
    requires
        all_bound(variables, r.spec_free_variables()),
        values_bound(variables, s),
    ensures
        all_bound(variables, apply_relation(s, r).spec_free_variables()),
{
    lemma_sides_bound(variables, r);
    lemma_apply_bound_parameter(variables, s, r.lhs());
    lemma_apply_bound_parameter(variables, s, r.rhs());
    lemma_bound_whole(
        variables,
        apply_parameter(s, r.lhs()).spec_free_variables(),
        apply_parameter(s, r.rhs()).spec_free_variables(),
    );
}

/// The variables of a substituted list of relations come from the list
/// or from the values.
pub proof fn lemma_apply_bound_relations(
    variables: Seq<Variable>,
    s: Seq<(Variable, Parameter)>,
    goals: Seq<Relation>,
)
    requires
        all_bound(variables, relations_free_variables(goals)),
        values_bound(variables, s),
    ensures
        all_bound(variables, relations_free_variables(apply_relations(s, goals))),
{
    let applied = apply_relations(s, goals);
    assert forall|k: int| 0 <= k < applied.len() implies all_bound(
        variables,
        (#[trigger] applied[k]).spec_free_variables(),
    ) by {
        lemma_free_variables_member(goals, k, variables);
        lemma_apply_bound_relation(variables, s, goals[k]);
    }
    lemma_free_variables_all(applied, variables);
}

/// Once a variable has taken a value, no parameter is that variable any
/// more.
pub proof fn lemma_bound_variable_is_gone(a: Parameter, b: Parameter, p: Parameter)
    requires
        can_bind(a, b),
    ensures
        as_variable(apply_parameter(seq![(as_variable(a).unwrap(), b)], p)) != Some(
            as_variable(a).unwrap(),
        ),
        as_variable(apply_parameter(seq![(as_variable(a).unwrap(), b)], p)) is Some ==> as_variable(
            apply_parameter(seq![(as_variable(a).unwrap(), b)], p),
        ) == as_variable(p) || as_variable(apply_parameter(seq![(as_variable(a).unwrap(), b)], p))
            == as_variable(b),
{
    let v = as_variable(a).unwrap();
    let s = seq![(v, b)];
    assert(keys(s) =~= seq![v]);
    assert(keys(s).no_duplicates());
    lemma_value_hit(s, 0);
    let q = apply_parameter(s, p);
    match p {
        Parameter::Lt(Lt::Var(u)) => {
            if u == v {
                match b {
                    Parameter::Lt(Lt::Var(w)) => {
                        assert(b.spec_free_variables()[0] == w);
                    },
                    _ => {},
                }
            } else {
                assert(!keys(s).contains(u));
            }
        },
        Parameter::Ty(Ty::Var(u)) => {
            if u == v {
                match b {
                    Parameter::Ty(Ty::Var(w)) => {
                        assert(b.spec_free_variables()[0] == w);
                    },
                    _ => {},
                }
            } else {
                assert(!keys(s).contains(u));
            }
        },
        _ => {},
    }
}

/// The variables of a renamed type are the renamed variables of the
/// type.
pub proof fn lemma_renamed_variables_ty(pairs: Seq<(Variable, Variable)>, ty: Ty)
    ensures
        rename_ty(pairs, ty).spec_free_variables() == Seq::new(
            ty.spec_free_variables().len(),
            |i: int| rename_variable(pairs, ty.spec_free_variables()[i]),
        ),
    decreases ty,
{
    let mapped = Seq::new(
        ty.spec_free_variables().len(),
        |i: int| rename_variable(pairs, ty.spec_free_variables()[i]),
    );
    match ty {
        Ty::Ref(lt, inner) => {
            lemma_renamed_variables_ty(pairs, *inner);
            assert(rename_ty(pairs, ty).spec_free_variables() =~= mapped);
        },
        _ => {
            assert(rename_ty(pairs, ty).spec_free_variables() =~= mapped);
        },
    }
}

/// The variables of a renamed parameter are the renamed variables of
/// the parameter.
pub proof fn lemma_renamed_variables(pairs: Seq<(Variable, Variable)>, p: Parameter)
    ensures
        rename_parameter(pairs, p).spec_free_variables() == Seq::new(
            p.spec_free_variables().len(),
            |i: int| rename_variable(pairs, p.spec_free_variables()[i]),
        ),
{
    let mapped = Seq::new(
        p.spec_free_variables().len(),
        |i: int| rename_variable(pairs, p.spec_free_variables()[i]),
    );
    match p {
        Parameter::Ty(ty) => {
            lemma_renamed_variables_ty(pairs, ty);
        },
        Parameter::Lt(lt) => {
            assert(rename_parameter(pairs, p).spec_free_variables() =~= mapped);
        },
    }
}

/// A variable can take a value after a renaming exactly as before it.
pub proof fn lemma_can_bind_renamed(pairs: Seq<(Variable, Variable)>, a: Parameter, b: Parameter)
    requires
        one_to_one(pairs),
        all_bound(firsts(pairs), a.spec_free_variables()),
        all_bound(firsts(pairs), b.spec_free_variables()),
        can_bind(a, b),
    ensures
        can_bind(rename_parameter(pairs, a), rename_parameter(pairs, b)),
        as_variable(rename_parameter(pairs, a)) == Some(
            rename_variable(pairs, as_variable(a).unwrap()),
        ),
{
    let v = as_variable(a).unwrap();
    lemma_rename_variable(pairs, v);
    lemma_renamed_variables(pairs, b);
    assert(a.spec_free_variables()[0] == v);
    let fb = b.spec_free_variables();
    let renamed = rename_parameter(pairs, b).spec_free_variables();
    if renamed.contains(rename_variable(pairs, v)) {
        let i = choose|i: int| 0 <= i < renamed.len() && renamed[i] == rename_variable(pairs, v);
        assert(firsts(pairs).contains(fb[i]));
        lemma_round_trip_variable(pairs, fb[i]);
        lemma_round_trip_variable(pairs, v);
        assert(fb[i] == v);
        assert(fb.contains(v));
    }
}

/// Renaming keeps apart the keys of a substitution that the renaming
/// replaces.
pub proof fn lemma_renamed_keys(pairs: Seq<(Variable, Variable)>, s: Seq<(Variable, Parameter)>)
    requires
        one_to_one(pairs),
        all_bound(firsts(pairs), keys(s)),
        keys(s).no_duplicates(),
    ensures
        keys(rename_substitution(pairs, s)).no_duplicates(),
        keys(rename_substitution(pairs, s)) == Seq::new(
            s.len(),
            |i: int| rename_variable(pairs, s[i].0),
        ),
{
    let renamed = keys(rename_substitution(pairs, s));
    assert(renamed =~= Seq::new(s.len(), |i: int| rename_variable(pairs, s[i].0)));
    assert forall|i: int, j: int| 0 <= i < renamed.len() && 0 <= j < renamed.len() && i
        != j implies renamed[i] != renamed[j] by {
        assert(keys(s)[i] == s[i].0 && keys(s)[j] == s[j].0);
        assert(firsts(pairs).contains(keys(s)[i]));
        assert(firsts(pairs).contains(keys(s)[j]));
        lemma_round_trip_variable(pairs, s[i].0);
        lemma_round_trip_variable(pairs, s[j].0);
    }
}

/// The value that a renamed substitution gives a renamed variable is
/// the renamed value.
pub proof fn lemma_rename_value(
    pairs: Seq<(Variable, Variable)>,
    s: Seq<(Variable, Parameter)>,
    v: Variable,
)
    requires
        one_to_one(pairs),
        all_bound(firsts(pairs), keys(s)),
        keys(s).no_duplicates(),
        firsts(pairs).contains(v),
    ensures
        value_of(rename_substitution(pairs, s), rename_variable(pairs, v)) == match value_of(s, v) {
            Some(p) => Some(rename_parameter(pairs, p)),
            None => None,
        },
{
    let rs = rename_substitution(pairs, s);
    lemma_renamed_keys(pairs, s);
    if keys(s).contains(v) {
        let i = keys(s).index_of(v);
        assert(keys(s)[i] == v);
        lemma_value_hit(s, i);
        assert(rs[i].0 == rename_variable(pairs, v));
        lemma_value_hit(rs, i);
    } else {
        if keys(rs).contains(rename_variable(pairs, v)) {
            let i = choose|i: int|
                0 <= i < keys(rs).len() && keys(rs)[i] == rename_variable(pairs, v);
            assert(keys(s)[i] == s[i].0);
            assert(firsts(pairs).contains(keys(s)[i]));
            lemma_round_trip_variable(pairs, s[i].0);
            lemma_round_trip_variable(pairs, v);
            assert(keys(s)[i] == v);
        }
    }
}

pub proof fn lemma_rename_apply_lt(
    pairs: Seq<(Variable, Variable)>,
    s: Seq<(Variable, Parameter)>,
    lt: Lt,
)
    requires
        one_to_one(pairs),
        all_bound(firsts(pairs), keys(s)),
        keys(s).no_duplicates(),
        all_bound(firsts(pairs), lt.spec_free_variables()),
    ensures
        rename_lt(pairs, apply_lt(s, lt)) == apply_lt(
            rename_substitution(pairs, s),
            rename_lt(pairs, lt),
        ),
{
    match lt {
        Lt::Static => {},
        Lt::Var(v) => {
            assert(lt.spec_free_variables()[0] == v);
            lemma_rename_value(pairs, s, v);
        },
    }
}

pub proof fn lemma_rename_apply_ty(
    pairs: Seq<(Variable, Variable)>,
    s: Seq<(Variable, Parameter)>,
    ty: Ty,
)
    requires
        one_to_one(pairs),
        all_bound(firsts(pairs), keys(s)),
        keys(s).no_duplicates(),
        all_bound(firsts(pairs), ty.spec_free_variables()),
    ensures
        rename_ty(pairs, apply_ty(s, ty)) == apply_ty(
            rename_substitution(pairs, s),
            rename_ty(pairs, ty),
        ),
    decreases ty,
{
    match ty {
        Ty::Var(v) => {
            assert(ty.spec_free_variables()[0] == v);
            lemma_rename_value(pairs, s, v);
        },
        Ty::Scalar(_) => {},
        Ty::Ref(lt, inner) => {
            lemma_bound_part(
                firsts(pairs),
                lt.spec_free_variables(),
                inner.spec_free_variables(),
            );
            lemma_rename_apply_lt(pairs, s, lt);
            lemma_rename_apply_ty(pairs, s, *inner);
        },
    }
}

/// Substituting and next renaming comes to renaming both the
/// substitution and the parameter and next substituting.
pub proof fn lemma_rename_apply_parameter(
    pairs: Seq<(Variable, Variable)>,
    s: Seq<(Variable, Parameter)>,
    p: Parameter,
)
    requires
        one_to_one(pairs),
        all_bound(firsts(pairs), keys(s)),
        keys(s).no_duplicates(),
        all_bound(firsts(pairs), p.spec_free_variables()),
    ensures
        rename_parameter(pairs, apply_parameter(s, p)) == apply_parameter(
            rename_substitution(pairs, s),
            rename_parameter(pairs, p),
        ),
{
    match p {
        Parameter::Ty(ty) => lemma_rename_apply_ty(pairs, s, ty),
        Parameter::Lt(lt) => lemma_rename_apply_lt(pairs, s, lt),
    }
}

/// Substituting and next renaming comes to renaming both the
/// substitution and the relations and next substituting.
pub proof fn lemma_rename_apply_relations(
    pairs: Seq<(Variable, Variable)>,
    s: Seq<(Variable, Parameter)>,
    goals: Seq<Relation>,
)
    requires
        one_to_one(pairs),
        all_bound(firsts(pairs), keys(s)),
        keys(s).no_duplicates(),
        all_bound(firsts(pairs), relations_free_variables(goals)),
    ensures
        rename_relations(pairs, apply_relations(s, goals)) == apply_relations(
            rename_substitution(pairs, s),
            rename_relations(pairs, goals),
        ),
{
    let left = rename_relations(pairs, apply_relations(s, goals));
    let right = apply_relations(rename_substitution(pairs, s), rename_relations(pairs, goals));
    assert forall|i: int| 0 <= i < goals.len() implies left[i] == right[i] by {
        lemma_free_variables_member(goals, i, firsts(pairs));
        lemma_sides_bound(firsts(pairs), goals[i]);
        lemma_rename_apply_parameter(pairs, s, goals[i].lhs());
        lemma_rename_apply_parameter(pairs, s, goals[i].rhs());
    }
    assert(left =~= right);
}

/// The value that the substitution gives `v`, where it gives one.
pub fn find_value<'a>(s: &'a Vec<(Variable, Parameter)>, v: Variable) -> (p: Option<&'a Parameter>)
    requires
        keys(s@).no_duplicates(),
    ensures
        match p {
            Some(p) => value_of(s@, v) == Some(*p),
            None => value_of(s@, v) is None,
        },
{
    let mut i: usize = 0;
    while i < s.len()
        invariant
            i <= s.len(),
            keys(s@).no_duplicates(),
            forall|j: int| 0 <= j < i ==> keys(s@)[j] != v,
        decreases s.len() - i,
    {
        if s[i].0 == v {
            proof {
                lemma_value_hit(s@, i as int);
            }
            return Some(&s[i].1);
        }
        i += 1;
    }
    None
}

pub fn substitute_in_lt(s: &Vec<(Variable, Parameter)>, lt: Lt) -> (out: Lt)
    requires
        keys(s@).no_duplicates(),
    ensures
        out == apply_lt(s@, lt),
{
    match lt {
        Lt::Static => lt,
        Lt::Var(v) => match find_value(s, v) {
            Some(Parameter::Lt(value)) => *value,
            _ => lt,
        },
    }
}

pub fn substitute_in_ty(s: &Vec<(Variable, Parameter)>, ty: &Ty) -> (out: Ty)
    requires
        keys(s@).no_duplicates(),
    ensures
        out == apply_ty(s@, *ty),
    decreases ty,
{
    match ty {
        Ty::Var(v) => match find_value(s, *v) {
            Some(Parameter::Ty(value)) => value.clone(),
            _ => Ty::Var(*v),
        },
        Ty::Scalar(n) => Ty::Scalar(*n),
        Ty::Ref(lt, inner) => {
            let applied: Ty = substitute_in_ty(s, &**inner);
            Ty::Ref(substitute_in_lt(s, *lt), Box::new(applied))
        },
    }
}

pub fn substitute_in_parameter(s: &Vec<(Variable, Parameter)>, p: &Parameter) -> (out: Parameter)
    requires
        keys(s@).no_duplicates(),
    ensures
        out == apply_parameter(s@, *p),
{
    match p {
        Parameter::Ty(ty) => Parameter::Ty(substitute_in_ty(s, ty)),
        Parameter::Lt(lt) => Parameter::Lt(substitute_in_lt(s, *lt)),
    }
}

pub fn substitute_in_relation(s: &Vec<(Variable, Parameter)>, r: &Relation) -> (out: Relation)
    requires
        keys(s@).no_duplicates(),
    ensures
        out == apply_relation(s@, *r),
{
    match r {
        Relation::Equals(a, b) => Relation::Equals(
            substitute_in_parameter(s, a),
            substitute_in_parameter(s, b),
        ),
        Relation::Outlives(a, b) => Relation::Outlives(
            substitute_in_parameter(s, a),
            substitute_in_parameter(s, b),
        ),
    }
}

/// The relations of `goals` from place `from` on, substituted.
pub fn substitute_in_relations(
    s: &Vec<(Variable, Parameter)>,
    goals: &Vec<Relation>,
    from: usize,
) -> (out: Vec<Relation>)
    requires
        keys(s@).no_duplicates(),
        from <= goals@.len(),
    ensures
        out@ == apply_relations(s@, goals@.skip(from as int)),
{
    let mut out: Vec<Relation> = Vec::new();
    let mut i: usize = from;
    while i < goals.len()
        invariant
            from <= i <= goals.len(),
            keys(s@).no_duplicates(),
            out@.len() == i - from,
            forall|j: int| 0 <= j < i - from ==> out@[j] == apply_relation(s@, goals@[from + j]),
        decreases goals.len() - i,
    {
        out.push(substitute_in_relation(s, &goals[i]));
        i += 1;
    }
    assert(out@ =~= apply_relations(s@, goals@.skip(from as int)));
    out
}

/// The substitution `first` with `next` applied to its values, followed
/// by `next`.
pub fn compose_substitutions(
    first: &Vec<(Variable, Parameter)>,
    next: &Vec<(Variable, Parameter)>,
) -> (out: Vec<(Variable, Parameter)>)
    requires
        keys(next@).no_duplicates(),
    ensures
        out@ == compose(first@, next@),
{
    let mut out: Vec<(Variable, Parameter)> = Vec::new();
    let mut i: usize = 0;
    while i < first.len()
        invariant
            i <= first.len(),
            keys(next@).no_duplicates(),
            out@.len() == i,
            forall|j: int|
                0 <= j < i ==> out@[j] == (first@[j].0, apply_parameter(next@, first@[j].1)),
        decreases first.len() - i,
    {
        out.push((first[i].0, substitute_in_parameter(next, &first[i].1)));
        i += 1;
    }
    let ghost head = out@;
    let mut k: usize = 0;
    while k < next.len()
        invariant
            k <= next.len(),
            out@ == head + next@.take(k as int),
        decreases next.len() - k,
    {
        out.push((next[k].0, next[k].1.clone()));
        assert(next@.take(k + 1) =~= next@.take(k as int).push(next@[k as int]));
        k += 1;
    }
    assert(next@.take(next.len() as int) =~= next@);
    assert(head =~= Seq::new(
        first@.len(),
        |i: int| (first@[i].0, apply_parameter(next@, first@[i].1)),
    ));
    out
}

} // verus!
