//! Renaming of variables: a list of pairs, each saying which variable
//! takes the place of which, applied to terms and undone again.

use vstd::prelude::*;
use crate::env::{all_bound, distinct, lemma_free_variables_all, lemma_free_variables_member};
use crate::grammar::{
    relations_free_variables, relations_size, Lt, Parameter, Relation, Ty, Variable,
};

verus! {

/// The variables that a renaming replaces.
pub open spec fn firsts(pairs: Seq<(Variable, Variable)>) -> Seq<Variable> {
    Seq::new(pairs.len(), |i: int| pairs[i].0)
}

/// The variables that a renaming puts in their place.
pub open spec fn seconds(pairs: Seq<(Variable, Variable)>) -> Seq<Variable> {
    Seq::new(pairs.len(), |i: int| pairs[i].1)
}

/// The renaming read from right to left.
pub open spec fn inverse(pairs: Seq<(Variable, Variable)>) -> Seq<(Variable, Variable)> {
    Seq::new(pairs.len(), |i: int| (pairs[i].1, pairs[i].0))
}

/// No variable is replaced twice, none is put in place of two, and each
/// keeps its quantifier and its kind.
pub open spec fn one_to_one(pairs: Seq<(Variable, Variable)>) -> bool {
    &&& firsts(pairs).no_duplicates()
    &&& seconds(pairs).no_duplicates()
    &&& forall|i: int|
        0 <= i < pairs.len() ==> (#[trigger] pairs[i]).0.quantifier == pairs[i].1.quantifier
            && pairs[i].0.kind == pairs[i].1.kind
}

/// The variable that takes the place of `v`; `v` itself where the
/// renaming does not replace it.
pub open spec fn rename_variable(pairs: Seq<(Variable, Variable)>, v: Variable) -> Variable {
    if firsts(pairs).contains(v) {
        pairs[firsts(pairs).index_of(v)].1
    } else {
        v
    }
}

pub open spec fn rename_lt(pairs: Seq<(Variable, Variable)>, lt: Lt) -> Lt {
    match lt {
        Lt::Static => Lt::Static,
        Lt::Var(v) => Lt::Var(rename_variable(pairs, v)),
    }
}

pub open spec fn rename_ty(pairs: Seq<(Variable, Variable)>, ty: Ty) -> Ty
    decreases ty,
{
    match ty {
        Ty::Var(v) => Ty::Var(rename_variable(pairs, v)),
        Ty::Scalar(n) => Ty::Scalar(n),
        Ty::Ref(lt, inner) => Ty::Ref(rename_lt(pairs, lt), Box::new(rename_ty(pairs, *inner))),
    }
}

pub open spec fn rename_parameter(pairs: Seq<(Variable, Variable)>, p: Parameter) -> Parameter {
    match p {
        Parameter::Ty(ty) => Parameter::Ty(rename_ty(pairs, ty)),
        Parameter::Lt(lt) => Parameter::Lt(rename_lt(pairs, lt)),
    }
}

pub open spec fn rename_relation(pairs: Seq<(Variable, Variable)>, r: Relation) -> Relation {
    match r {
        Relation::Equals(a, b) => Relation::Equals(
            rename_parameter(pairs, a),
            rename_parameter(pairs, b),
        ),
        Relation::Outlives(a, b) => Relation::Outlives(
            rename_parameter(pairs, a),
            rename_parameter(pairs, b),
        ),
    }
}

pub open spec fn rename_relations(pairs: Seq<(Variable, Variable)>, s: Seq<Relation>) -> Seq<
    Relation,
> {
    Seq::new(s.len(), |i: int| rename_relation(pairs, s[i]))
}

pub open spec fn rename_substitution(
    pairs: Seq<(Variable, Variable)>,
    s: Seq<(Variable, Parameter)>,
) -> Seq<(Variable, Parameter)> {
    Seq::new(s.len(), |i: int| (rename_variable(pairs, s[i].0), rename_parameter(pairs, s[i].1)))
}

/// A one-to-one renaming sends the first of each pair to its second.
pub proof fn lemma_rename_hit(pairs: Seq<(Variable, Variable)>, i: int)
    requires
        one_to_one(pairs),
        0 <= i < pairs.len(),
    ensures
        rename_variable(pairs, pairs[i].0) == pairs[i].1,
        firsts(pairs).contains(pairs[i].0),
        seconds(pairs).contains(pairs[i].1),
{
    let f = firsts(pairs);
    assert(f[i] == pairs[i].0);
    assert(seconds(pairs)[i] == pairs[i].1);
    let j = f.index_of(pairs[i].0);
    assert(f[j] == f[i]);
}

/// A renamed variable keeps its quantifier and its kind, and lies among
/// the seconds where the renaming replaces it.
pub proof fn lemma_rename_variable(pairs: Seq<(Variable, Variable)>, v: Variable)
    requires
        one_to_one(pairs),
    ensures
        rename_variable(pairs, v).quantifier == v.quantifier,
        rename_variable(pairs, v).kind == v.kind,
        firsts(pairs).contains(v) ==> seconds(pairs).contains(rename_variable(pairs, v)),
{
    let f = firsts(pairs);
    if f.contains(v) {
        let j = f.index_of(v);
        assert(f[j] == v);
        lemma_rename_hit(pairs, j);
    }
}

/// The inverse of a one-to-one renaming is one-to-one.
pub proof fn lemma_inverse(pairs: Seq<(Variable, Variable)>)
    requires
        one_to_one(pairs),
    ensures
        one_to_one(inverse(pairs)),
        firsts(inverse(pairs)) =~= seconds(pairs),
        seconds(inverse(pairs)) =~= firsts(pairs),
        inverse(inverse(pairs)) =~= pairs,
{
    let inv = inverse(pairs);
    assert(firsts(inv) =~= seconds(pairs));
    assert(seconds(inv) =~= firsts(pairs));
    assert forall|i: int| 0 <= i < inv.len() implies (#[trigger] inv[i]).0.quantifier
        == inv[i].1.quantifier && inv[i].0.kind == inv[i].1.kind by {
        assert(pairs[i].0.quantifier == pairs[i].1.quantifier);
    }
}

/// Renaming and then renaming back gives the variable again, where the
/// renaming replaces it.
pub proof fn lemma_round_trip_variable(pairs: Seq<(Variable, Variable)>, v: Variable)
    requires
        one_to_one(pairs),
        firsts(pairs).contains(v),
    ensures
        rename_variable(inverse(pairs), rename_variable(pairs, v)) == v,
{
    let j = firsts(pairs).index_of(v);
    assert(firsts(pairs)[j] == v);
    lemma_rename_hit(pairs, j);
    lemma_inverse(pairs);
    lemma_rename_hit(inverse(pairs), j);
}

pub proof fn lemma_round_trip_lt(pairs: Seq<(Variable, Variable)>, lt: Lt)
    requires
        one_to_one(pairs),
        all_bound(firsts(pairs), lt.spec_free_variables()),
    ensures
        rename_lt(inverse(pairs), rename_lt(pairs, lt)) == lt,
{
    match lt {
        Lt::Static => {},
        Lt::Var(v) => {
            assert(lt.spec_free_variables()[0] == v);
            lemma_round_trip_variable(pairs, v);
        },
    }
}

pub proof fn lemma_round_trip_ty(pairs: Seq<(Variable, Variable)>, ty: Ty)
    requires
        one_to_one(pairs),
        all_bound(firsts(pairs), ty.spec_free_variables()),
    ensures
        rename_ty(inverse(pairs), rename_ty(pairs, ty)) == ty,
    decreases ty,
{
    match ty {
        Ty::Var(v) => {
            assert(ty.spec_free_variables()[0] == v);
            lemma_round_trip_variable(pairs, v);
        },
        Ty::Scalar(_) => {},
        Ty::Ref(lt, inner) => {
            let all = ty.spec_free_variables();
            let head = lt.spec_free_variables();
            let tail = inner.spec_free_variables();
            assert forall|i: int| 0 <= i < head.len() implies firsts(pairs).contains(
                #[trigger] head[i],
            ) by {
                assert(all[i] == head[i]);
            }
            assert forall|i: int| 0 <= i < tail.len() implies firsts(pairs).contains(
                #[trigger] tail[i],
            ) by {
                assert(all[head.len() + i] == tail[i]);
            }
            lemma_round_trip_lt(pairs, lt);
            lemma_round_trip_ty(pairs, *inner);
        },
    }
}

pub proof fn lemma_round_trip_parameter(pairs: Seq<(Variable, Variable)>, p: Parameter)
    requires
        one_to_one(pairs),
        all_bound(firsts(pairs), p.spec_free_variables()),
    ensures
        rename_parameter(inverse(pairs), rename_parameter(pairs, p)) == p,
{
    match p {
        Parameter::Ty(ty) => lemma_round_trip_ty(pairs, ty),
        Parameter::Lt(lt) => lemma_round_trip_lt(pairs, lt),
    }
}

/// The variables of the two sides of a relation are bound where those of
/// the relation are.
pub proof fn lemma_sides_bound(variables: Seq<Variable>, r: Relation)
    requires
        all_bound(variables, r.spec_free_variables()),
    ensures
        all_bound(variables, r.lhs().spec_free_variables()),
        all_bound(variables, r.rhs().spec_free_variables()),
{
    let all = r.spec_free_variables();
    let head = r.lhs().spec_free_variables();
    let tail = r.rhs().spec_free_variables();
    assert forall|i: int| 0 <= i < head.len() implies variables.contains(#[trigger] head[i]) by {
        assert(all[i] == head[i]);
    }
    assert forall|i: int| 0 <= i < tail.len() implies variables.contains(#[trigger] tail[i]) by {
        assert(all[head.len() + i] == tail[i]);
    }
}

/// Renaming a relation and renaming it back gives the relation again,
/// where the renaming replaces each of its variables.
pub proof fn lemma_round_trip_relation(pairs: Seq<(Variable, Variable)>, r: Relation)
    requires
        one_to_one(pairs),
        all_bound(firsts(pairs), r.spec_free_variables()),
    ensures
        rename_relation(inverse(pairs), rename_relation(pairs, r)) == r,
{
    lemma_sides_bound(firsts(pairs), r);
    lemma_round_trip_parameter(pairs, r.lhs());
    lemma_round_trip_parameter(pairs, r.rhs());
}

/// Two relations with the same renamed form are the same relation, where
/// the renaming replaces each of their variables.
pub proof fn lemma_rename_injective(pairs: Seq<(Variable, Variable)>, r: Relation, s: Relation)
    requires
        one_to_one(pairs),
        all_bound(firsts(pairs), r.spec_free_variables()),
        all_bound(firsts(pairs), s.spec_free_variables()),
        rename_relation(pairs, r) == rename_relation(pairs, s),
    ensures
        r == s,
{
    lemma_round_trip_relation(pairs, r);
    lemma_round_trip_relation(pairs, s);
}

pub proof fn lemma_round_trip_relations(pairs: Seq<(Variable, Variable)>, s: Seq<Relation>)
    requires
        one_to_one(pairs),
        all_bound(firsts(pairs), relations_free_variables(s)),
    ensures
        rename_relations(inverse(pairs), rename_relations(pairs, s)) == s,
{
    let back = rename_relations(inverse(pairs), rename_relations(pairs, s));
    assert forall|i: int| 0 <= i < s.len() implies back[i] == s[i] by {
        lemma_free_variables_member(s, i, firsts(pairs));
        lemma_round_trip_relation(pairs, s[i]);
    }
    assert(back =~= s);
}

/// Renaming keeps the size of a type.
pub proof fn lemma_size_ty(pairs: Seq<(Variable, Variable)>, ty: Ty)
    ensures
        rename_ty(pairs, ty).spec_size() == ty.spec_size(),
    decreases ty,
{
    match ty {
        Ty::Ref(lt, inner) => lemma_size_ty(pairs, *inner),
        _ => {},
    }
}

/// Renaming keeps the size of a relation.
pub proof fn lemma_size_relation(pairs: Seq<(Variable, Variable)>, r: Relation)
    ensures
        rename_relation(pairs, r).spec_size() == r.spec_size(),
{
    match r.lhs() {
        Parameter::Ty(ty) => lemma_size_ty(pairs, ty),
        _ => {},
    }
    match r.rhs() {
        Parameter::Ty(ty) => lemma_size_ty(pairs, ty),
        _ => {},
    }
}

/// Renaming keeps the size of a list of relations.
pub proof fn lemma_size_relations(pairs: Seq<(Variable, Variable)>, s: Seq<Relation>)
    ensures
        relations_size(rename_relations(pairs, s)) == relations_size(
            s,
        ),
    decreases s.len(),
{
    if s.len() > 0 {
        lemma_size_relations(pairs, s.drop_last());
        lemma_size_relation(pairs, s.last());
        assert(rename_relations(pairs, s).drop_last() =~= rename_relations(pairs, s.drop_last()));
    }
}

/// The variables of a renamed type are bound by the seconds of the
/// renaming, where the renaming replaces each variable of the type.
pub proof fn lemma_renamed_bound_ty(pairs: Seq<(Variable, Variable)>, ty: Ty)
    requires
        one_to_one(pairs),
        all_bound(firsts(pairs), ty.spec_free_variables()),
    ensures
        all_bound(seconds(pairs), rename_ty(pairs, ty).spec_free_variables()),
    decreases ty,
{
    match ty {
        Ty::Var(v) => {
            assert(ty.spec_free_variables()[0] == v);
            lemma_rename_variable(pairs, v);
        },
        Ty::Scalar(_) => {},
        Ty::Ref(lt, inner) => {
            let all = ty.spec_free_variables();
            let head = lt.spec_free_variables();
            let tail = inner.spec_free_variables();
            assert forall|i: int| 0 <= i < tail.len() implies firsts(pairs).contains(
                #[trigger] tail[i],
            ) by {
                assert(all[head.len() + i] == tail[i]);
            }
            lemma_renamed_bound_ty(pairs, *inner);
            match lt {
                Lt::Static => {},
                Lt::Var(v) => {
                    assert(all[0] == v);
                    lemma_rename_variable(pairs, v);
                },
            }
        },
    }
}

pub proof fn lemma_renamed_bound_parameter(pairs: Seq<(Variable, Variable)>, p: Parameter)
    requires
        one_to_one(pairs),
        all_bound(firsts(pairs), p.spec_free_variables()),
    ensures
        all_bound(seconds(pairs), rename_parameter(pairs, p).spec_free_variables()),
{
    match p {
        Parameter::Ty(ty) => lemma_renamed_bound_ty(pairs, ty),
        Parameter::Lt(Lt::Static) => {},
        Parameter::Lt(Lt::Var(v)) => {
            assert(p.spec_free_variables()[0] == v);
            lemma_rename_variable(pairs, v);
        },
    }
}

/// The variables of a renamed relation are bound by the seconds of the
/// renaming, where the renaming replaces each variable of the relation.
pub proof fn lemma_renamed_bound_relation(pairs: Seq<(Variable, Variable)>, r: Relation)
    requires
        one_to_one(pairs),
        all_bound(firsts(pairs), r.spec_free_variables()),
    ensures
        all_bound(seconds(pairs), rename_relation(pairs, r).spec_free_variables()),
{
    lemma_sides_bound(firsts(pairs), r);
    lemma_renamed_bound_parameter(pairs, r.lhs());
    lemma_renamed_bound_parameter(pairs, r.rhs());
}

/// The variables of a renamed list of relations are bound by the seconds
/// of the renaming, where the renaming replaces each variable of the list.
pub proof fn lemma_renamed_bound_relations(pairs: Seq<(Variable, Variable)>, s: Seq<Relation>)
    requires
        one_to_one(pairs),
        all_bound(firsts(pairs), relations_free_variables(s)),
    ensures
        all_bound(seconds(pairs), relations_free_variables(rename_relations(pairs, s))),
{
    let renamed = rename_relations(pairs, s);
    assert forall|k: int| 0 <= k < renamed.len() implies all_bound(
        seconds(pairs),
        (#[trigger] renamed[k]).spec_free_variables(),
    ) by {
        lemma_free_variables_member(s, k, firsts(pairs));
        lemma_renamed_bound_relation(pairs, s[k]);
    }
    lemma_free_variables_all(renamed, seconds(pairs));
}

/// Renaming keeps apart the relations of a list in which none occurs
/// twice, where the renaming replaces each variable of the list.
pub proof fn lemma_renamed_distinct(pairs: Seq<(Variable, Variable)>, s: Seq<Relation>)
    requires
        one_to_one(pairs),
        all_bound(firsts(pairs), relations_free_variables(s)),
        distinct(s),
    ensures
        distinct(rename_relations(pairs, s)),
{
    let renamed = rename_relations(pairs, s);
    assert forall|i: int, j: int| 0 <= i < j < renamed.len() implies renamed[i] != renamed[j] by {
        lemma_free_variables_member(s, i, firsts(pairs));
        lemma_free_variables_member(s, j, firsts(pairs));
        if renamed[i] == renamed[j] {
            lemma_rename_injective(pairs, s[i], s[j]);
        }
    }
}

/// The variable that takes the place of `v`.
pub fn replace_variable(pairs: &Vec<(Variable, Variable)>, v: Variable) -> (w: Variable)
    requires
        one_to_one(pairs@),
    ensures
        w == rename_variable(pairs@, v),
{
    let mut i: usize = 0;
    while i < pairs.len()
        invariant
            i <= pairs.len(),
            one_to_one(pairs@),
            forall|j: int| 0 <= j < i ==> firsts(pairs@)[j] != v,
        decreases pairs.len() - i,
    {
        if pairs[i].0 == v {
            proof {
                lemma_rename_hit(pairs@, i as int);
            }
            return pairs[i].1;
        }
        i += 1;
    }
    v
}

pub fn replace_in_lt(pairs: &Vec<(Variable, Variable)>, lt: Lt) -> (out: Lt)
    requires
        one_to_one(pairs@),
    ensures
        out == rename_lt(pairs@, lt),
{
    match lt {
        Lt::Static => Lt::Static,
        Lt::Var(v) => Lt::Var(replace_variable(pairs, v)),
    }
}

pub fn replace_in_ty(pairs: &Vec<(Variable, Variable)>, ty: &Ty) -> (out: Ty)
    requires
        one_to_one(pairs@),
    ensures
        out == rename_ty(pairs@, *ty),
    decreases ty,
{
    match ty {
        Ty::Var(v) => Ty::Var(replace_variable(pairs, *v)),
        Ty::Scalar(n) => Ty::Scalar(*n),
        Ty::Ref(lt, inner) => {
            let renamed: Ty = replace_in_ty(pairs, &**inner);
            Ty::Ref(replace_in_lt(pairs, *lt), Box::new(renamed))
        },
    }
}

pub fn replace_in_parameter(pairs: &Vec<(Variable, Variable)>, p: &Parameter) -> (out: Parameter)
    requires
        one_to_one(pairs@),
    ensures
        out == rename_parameter(pairs@, *p),
{
    match p {
        Parameter::Ty(ty) => Parameter::Ty(replace_in_ty(pairs, ty)),
        Parameter::Lt(lt) => Parameter::Lt(replace_in_lt(pairs, *lt)),
    }
}

pub fn replace_in_relation(pairs: &Vec<(Variable, Variable)>, r: &Relation) -> (out: Relation)
    requires
        one_to_one(pairs@),
    ensures
        out == rename_relation(pairs@, *r),
{
    match r {
        Relation::Equals(a, b) => Relation::Equals(
            replace_in_parameter(pairs, a),
            replace_in_parameter(pairs, b),
        ),
        Relation::Outlives(a, b) => Relation::Outlives(
            replace_in_parameter(pairs, a),
            replace_in_parameter(pairs, b),
        ),
    }
}

pub fn replace_in_relations(pairs: &Vec<(Variable, Variable)>, s: &Vec<Relation>) -> (out: Vec<
    Relation,
>)
    requires
        one_to_one(pairs@),
    ensures
        out@ == rename_relations(pairs@, s@),
{
    let mut out: Vec<Relation> = Vec::new();
    let mut i: usize = 0;
    while i < s.len()
        invariant
            i <= s.len(),
            one_to_one(pairs@),
            out@.len() == i,
            forall|j: int| 0 <= j < i ==> out@[j] == rename_relation(pairs@, s@[j]),
        decreases s.len() - i,
    {
        out.push(replace_in_relation(pairs, &s[i]));
        i += 1;
    }
    assert(out@ =~= rename_relations(pairs@, s@));
    out
}

pub fn replace_in_substitution(
    pairs: &Vec<(Variable, Variable)>,
    s: &Vec<(Variable, Parameter)>,
) -> (out: Vec<(Variable, Parameter)>)
    requires
        one_to_one(pairs@),
    ensures
        out@ == rename_substitution(pairs@, s@),
{
    let mut out: Vec<(Variable, Parameter)> = Vec::new();
    let mut i: usize = 0;
    while i < s.len()
        invariant
            i <= s.len(),
            one_to_one(pairs@),
            out@.len() == i,
            forall|j: int|
                0 <= j < i ==> out@[j] == (
                    rename_variable(pairs@, s@[j].0),
                    rename_parameter(pairs@, s@[j].1),
                ),
        decreases s.len() - i,
    {
        out.push((replace_variable(pairs, s[i].0), replace_in_parameter(pairs, &s[i].1)));
        i += 1;
    }
    assert(out@ =~= rename_substitution(pairs@, s@));
    out
}

/// The renaming read from right to left.
pub fn invert(pairs: &Vec<(Variable, Variable)>) -> (out: Vec<(Variable, Variable)>)
    ensures
        out@ == inverse(pairs@),
{
    let mut out: Vec<(Variable, Variable)> = Vec::new();
    let mut i: usize = 0;
    while i < pairs.len()
        invariant
            i <= pairs.len(),
            out@.len() == i,
            forall|j: int| 0 <= j < i ==> out@[j] == (pairs@[j].1, pairs@[j].0),
        decreases pairs.len() - i,
    {
        out.push((pairs[i].1, pairs[i].0));
        i += 1;
    }
    assert(out@ =~= inverse(pairs@));
    out
}

} // verus!
