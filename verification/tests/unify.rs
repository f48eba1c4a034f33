use formality_prove::prove::{prove_after, prove_wc_list};
use formality_prove::prove_eq::{may_bind, prove_eq, variable_of};
use formality_prove::substitution::{
    compose_substitutions, find_value, substitute_in_parameter, substitute_in_relations,
};
use formality_prove::{
    is_definitely_not_proveable, may_not_be_provable, prove, Bias, Constraints, Decls, Env, Lt,
    Parameter, ParameterKind, Relation, Ty, Variable, Wcs,
};

fn universal_lt(index: usize) -> Variable {
    Variable::universal(ParameterKind::Lt, index)
}

fn existential_lt(index: usize) -> Variable {
    Variable::existential(ParameterKind::Lt, index)
}

fn existential_ty(index: usize) -> Variable {
    Variable::existential(ParameterKind::Ty, index)
}

fn lt(v: Variable) -> Parameter {
    Parameter::Lt(Lt::Var(v))
}

fn ty(v: Variable) -> Parameter {
    Parameter::Ty(Ty::Var(v))
}

fn env_of(variables: Vec<Variable>) -> Env {
    Env::with_variables(variables, Bias::Soundness)
}

fn roomy() -> Decls {
    Decls { max_size: 100 }
}

#[test]
fn an_existential_variable_takes_the_other_side() {
    let a = universal_lt(0);
    let x = existential_lt(1);
    let env = || env_of(vec![a, x]);
    let found = prove(roomy(), env(), Wcs::t(), Wcs::from_vec(vec![Relation::equals(lt(x), lt(a))]));
    assert_eq!(found.len(), 1);
    let only = &found.items()[0];
    assert_eq!(only.substitution(), &vec![(x, lt(a))]);
    assert!(only.is_known_true());
    assert!(!only.unconditionally_true());
    assert!(only.env().pending().is_empty());
    assert!(only.same(&Constraints::new(env(), true, vec![(x, lt(a))]).unwrap()));
    let mirrored =
        prove(roomy(), env(), Wcs::t(), Wcs::from_vec(vec![Relation::equals(lt(a), lt(x))]));
    assert_eq!(mirrored.len(), 1);
    assert_eq!(mirrored.items()[0].substitution(), &vec![(x, lt(a))]);
}

#[test]
fn two_existential_variables_bind_either_way() {
    let x = existential_lt(0);
    let y = existential_lt(1);
    let found = prove_eq(&roomy(), &env_of(vec![x, y]), &Wcs::t(), &lt(x), &lt(y));
    assert_eq!(found.len(), 2);
    assert_eq!(found[0].substitution(), &vec![(x, lt(y))]);
    assert_eq!(found[1].substitution(), &vec![(y, lt(x))]);
}

#[test]
fn a_variable_is_not_bound_to_a_term_that_mentions_it() {
    let t = existential_ty(0);
    let wrapped = Parameter::Ty(Ty::Ref(Lt::Static, Box::new(Ty::Var(t))));
    assert!(!may_bind(&ty(t), &wrapped));
    assert!(may_bind(&ty(t), &Parameter::Ty(Ty::Scalar(1))));
    let found = prove_eq(&roomy(), &env_of(vec![t]), &Wcs::t(), &ty(t), &wrapped);
    assert!(found.is_empty());
    let goal = || Wcs::from_vec(vec![Relation::equals(ty(t), wrapped.clone())]);
    assert!(is_definitely_not_proveable(roomy(), env_of(vec![t]), Wcs::t(), goal()));
    assert!(may_not_be_provable(roomy(), env_of(vec![t]), Wcs::t(), goal()));
}

#[test]
fn a_variable_is_bound_to_its_own_kind_only() {
    let x = existential_lt(0);
    let scalar = Parameter::Ty(Ty::Scalar(1));
    assert!(!may_bind(&lt(x), &scalar));
    assert!(!may_bind(&lt(universal_lt(0)), &Parameter::Lt(Lt::Static)));
    assert!(may_bind(&lt(x), &Parameter::Lt(Lt::Static)));
    assert_eq!(variable_of(&lt(x)), Some(x));
    assert_eq!(variable_of(&ty(x)), None);
    assert_eq!(variable_of(&ty(existential_ty(3))), Some(existential_ty(3)));
    assert_eq!(variable_of(&Parameter::Lt(Lt::Static)), None);
    assert_eq!(variable_of(&scalar), None);
    let found = prove_eq(&roomy(), &env_of(vec![x]), &Wcs::t(), &lt(x), &scalar);
    assert!(found.is_empty());
}

#[test]
fn later_clauses_see_the_values_chosen_earlier() {
    let a = universal_lt(0);
    let x = existential_lt(1);
    let goal = Wcs::from_vec(vec![
        Relation::equals(lt(x), lt(a)),
        Relation::outlives(lt(x), lt(a)),
    ]);
    let env = || env_of(vec![a, x]);
    let found = prove(roomy(), env(), Wcs::t(), goal);
    assert_eq!(found.len(), 1);
    let plain = Constraints::new(env(), true, vec![(x, lt(a))]).unwrap();
    let put_off = Constraints::new(
        env().with_pending(Relation::outlives(lt(a), lt(a))),
        true,
        vec![(x, lt(a))],
    )
    .unwrap();
    assert!(found.contains(&plain));
    assert!(!found.contains(&put_off));
}

#[test]
fn values_chosen_later_are_put_into_values_chosen_earlier() {
    let a = universal_lt(0);
    let x = existential_lt(1);
    let y = existential_lt(2);
    let goal = Wcs::from_vec(vec![Relation::equals(lt(x), lt(y)), Relation::equals(lt(x), lt(a))]);
    let env = || env_of(vec![a, x, y]);
    let found = prove_wc_list(&roomy(), &env(), &Wcs::t(), &goal);
    assert_eq!(found.len(), 2);
    let through_x = Constraints::new(env(), true, vec![(x, lt(a)), (y, lt(a))]).unwrap();
    let through_y = Constraints::new(env(), true, vec![(y, lt(a)), (x, lt(a))]).unwrap();
    assert!(found.iter().any(|c| c.same(&through_x)));
    assert!(found.iter().any(|c| c.same(&through_y)));
    let proven = prove(roomy(), env(), Wcs::t(), goal);
    assert_eq!(proven.len(), 2);
    assert!(proven.contains(&through_x));
    assert!(proven.contains(&through_y));
}

#[test]
fn a_value_that_contradicts_a_later_clause_gives_no_proof() {
    let a = universal_lt(0);
    let b = universal_lt(1);
    let x = existential_lt(2);
    let goal = Wcs::from_vec(vec![Relation::equals(lt(x), lt(a)), Relation::equals(lt(x), lt(b))]);
    let found = prove(roomy(), env_of(vec![a, b, x]), Wcs::t(), goal);
    assert!(!found.is_proven());
}

#[test]
fn proofs_after_a_result_come_after_it() {
    let a = universal_lt(0);
    let x = existential_lt(1);
    let env = env_of(vec![a, x]);
    let first = Constraints::new(env, true, vec![(x, lt(a))]).unwrap();
    let rest = Wcs::from_vec(vec![Relation::outlives(Parameter::Lt(Lt::Static), lt(x))]);
    let found = prove_after(&roomy(), &first, &Wcs::t(), &rest);
    assert_eq!(found.len(), 2);
    assert!(found.iter().all(|c| c.substitution() == &vec![(x, lt(a))]));
    assert_eq!(found[0].env().pending(), &vec![]);
    assert_eq!(
        found[1].env().pending(),
        &vec![Relation::outlives(Parameter::Lt(Lt::Static), lt(a))]
    );
    let same = Wcs::from_vec(vec![Relation::outlives(lt(a), lt(x))]);
    let found = prove_after(&roomy(), &first, &Wcs::t(), &same);
    assert_eq!(found.len(), 1);
    assert_eq!(found[0].env().pending(), &vec![]);
}

#[test]
fn one_result_after_another() {
    let a = universal_lt(0);
    let x = existential_lt(1);
    let y = existential_lt(2);
    let env = || env_of(vec![a, x, y]);
    let first = Constraints::new(env(), true, vec![(x, lt(y))]).unwrap();
    let later_env = env().with_pending(Relation::outlives(lt(a), lt(a)));
    let then = Constraints::new(later_env, false, vec![(y, lt(a))]).unwrap();
    let both = first.seq(&then);
    assert_eq!(both.substitution(), &vec![(x, lt(a)), (y, lt(a))]);
    assert!(!both.is_known_true());
    assert_eq!(both.env().pending(), &vec![Relation::outlives(lt(a), lt(a))]);
    let nothing = Constraints::none(env());
    assert!(first.seq(&nothing).same(&first));
    assert!(nothing.seq(&first).same(&first));
}

#[test]
fn substitution_replaces_variables_by_kind() {
    let x = existential_lt(0);
    let t = existential_ty(1);
    let a = universal_lt(2);
    let s = vec![(x, lt(a)), (t, Parameter::Ty(Ty::Scalar(7)))];
    assert_eq!(find_value(&s, x), Some(&lt(a)));
    assert_eq!(find_value(&s, a), None);
    let term = Parameter::Ty(Ty::Ref(Lt::Var(x), Box::new(Ty::Ref(Lt::Var(a), Box::new(Ty::Var(t))))));
    let expected =
        Parameter::Ty(Ty::Ref(Lt::Var(a), Box::new(Ty::Ref(Lt::Var(a), Box::new(Ty::Scalar(7))))));
    assert_eq!(substitute_in_parameter(&s, &term), expected);
    assert_eq!(substitute_in_parameter(&s, &ty(x)), ty(x));
    assert_eq!(substitute_in_parameter(&vec![], &term), term);
    let goals = vec![Relation::outlives(lt(a), lt(a)), Relation::equals(lt(x), lt(x))];
    assert_eq!(substitute_in_relations(&s, &goals, 1), vec![Relation::equals(lt(a), lt(a))]);
    assert_eq!(substitute_in_relations(&s, &goals, 2), vec![]);
    let first = vec![(t, Parameter::Ty(Ty::Ref(Lt::Var(x), Box::new(Ty::Scalar(1)))))];
    let then = vec![(x, lt(a))];
    assert_eq!(
        compose_substitutions(&first, &then),
        vec![(t, Parameter::Ty(Ty::Ref(Lt::Var(a), Box::new(Ty::Scalar(1))))), (x, lt(a))]
    );
}

#[test]
fn values_come_back_in_the_names_of_the_caller() {
    let a = universal_lt(7);
    let unused = universal_lt(1);
    let y = existential_lt(4);
    let env = || env_of(vec![a, unused, y]);
    let goal = Wcs::from_vec(vec![Relation::equals(lt(y), lt(a))]);
    let found = prove(roomy(), env(), Wcs::t(), goal);
    assert_eq!(found.len(), 1);
    assert_eq!(found.items()[0].substitution(), &vec![(y, lt(a))]);
    assert_eq!(found.items()[0].env().variables(), &vec![a, unused, y]);
    assert!(found.items()[0].is_valid_extension_of(&env()));
}

#[test]
fn a_goal_that_grows_over_the_limit_ends_in_doubt() {
    let t = existential_ty(0);
    let deep = Parameter::Ty(Ty::Ref(
        Lt::Static,
        Box::new(Ty::Ref(Lt::Static, Box::new(Ty::Ref(Lt::Static, Box::new(Ty::Scalar(1)))))),
    ));
    assert_eq!(deep.size(), Some(9));
    let goal = || {
        Wcs::from_vec(vec![
            Relation::equals(ty(t), deep.clone()),
            Relation::equals(ty(t), ty(t)),
            Relation::equals(ty(t), ty(t)),
        ])
    };
    assert_eq!(goal().size(), Some(28));
    let env = || env_of(vec![t]);
    let bound = vec![(t, deep.clone())];

    let searched = prove(Decls { max_size: 40 }, env(), Wcs::t(), goal());
    assert_eq!(searched.len(), 1);
    assert!(searched.contains(&Constraints::new(env(), true, bound.clone()).unwrap()));

    let cut_short = prove(Decls { max_size: 39 }, env(), Wcs::t(), goal());
    assert_eq!(cut_short.len(), 1);
    assert!(cut_short.contains(&Constraints::new(env(), false, bound.clone()).unwrap()));
    assert!(may_not_be_provable(Decls { max_size: 39 }, env(), Wcs::t(), goal()));
    assert!(!is_definitely_not_proveable(Decls { max_size: 39 }, env(), Wcs::t(), goal()));

    let at_the_start = prove(Decls { max_size: 28 }, env(), Wcs::t(), goal());
    assert_eq!(at_the_start.len(), 1);
    assert!(at_the_start.contains(&Constraints::none(env()).ambiguous()));
}

#[test]
fn assumptions_grow_with_the_values_chosen() {
    let t = existential_ty(0);
    let deep = Parameter::Ty(Ty::Ref(Lt::Static, Box::new(Ty::Scalar(1))));
    let goal = || Wcs::from_vec(vec![Relation::equals(ty(t), deep.clone())]);
    let assumptions = || Wcs::from_vec(vec![Relation::equals(ty(t), ty(t))]);
    assert_eq!(goal().size(), Some(10));
    assert_eq!(assumptions().size(), Some(8));
    let env = || env_of(vec![t]);
    let first = Constraints::new(env(), true, vec![(t, deep.clone())]).unwrap();
    let after = prove_after(&Decls { max_size: 13 }, &first, &assumptions(), &Wcs::t());
    assert_eq!(after.len(), 1);
    assert!(after[0].is_known_true());
    let after = prove_after(&Decls { max_size: 12 }, &first, &assumptions(), &Wcs::t());
    assert_eq!(after.len(), 1);
    assert!(!after[0].is_known_true());
    assert_eq!(after[0].substitution(), &vec![(t, deep.clone())]);
    let found = prove(Decls { max_size: 18 }, env(), assumptions(), goal());
    assert!(found.contains(&Constraints::new(env(), true, vec![(t, deep.clone())]).unwrap()));
}
