use formality_prove::minimize::minimize;
use formality_prove::prove::{prove_wc, prove_wc_list};
use formality_prove::prove_eq::prove_eq;
use formality_prove::prove_outlives::prove_outlives;
use formality_prove::{
    is_definitely_not_proveable, may_not_be_provable, negation_via_failure, prove, Bias,
    Constraints, Decls, Env, Lt, Parameter, ParameterKind, Relation, Ty, Variable, Wcs,
};

fn universal_lt(index: usize) -> Variable {
    Variable::universal(ParameterKind::Lt, index)
}

fn existential_lt(index: usize) -> Variable {
    Variable::existential(ParameterKind::Lt, index)
}

fn lt(v: Variable) -> Parameter {
    Parameter::Lt(Lt::Var(v))
}

fn static_lt() -> Parameter {
    Parameter::Lt(Lt::Static)
}

fn env_of(variables: Vec<Variable>) -> Env {
    Env::with_variables(variables, Bias::Soundness)
}

fn goal_of(clauses: Vec<Relation>) -> Wcs {
    Wcs::from_vec(clauses)
}

fn roomy() -> Decls {
    Decls { max_size: 100 }
}

#[test]
fn static_outlives_a_universal_lifetime() {
    let a = universal_lt(0);
    let goal = Relation::outlives(static_lt(), lt(a));
    let found = prove(roomy(), env_of(vec![a]), Wcs::t(), goal_of(vec![goal.clone()]));
    assert!(found.is_proven());
    assert_eq!(found.len(), 2);
    let plain = Constraints::none(env_of(vec![a]));
    assert!(found.contains(&plain));
    assert!(plain.unconditionally_true());
    assert!(plain.substitution().is_empty());
    assert!(plain.env().pending().is_empty());
    let put_off = Constraints::none(env_of(vec![a]).with_pending(goal));
    assert!(found.contains(&put_off));
}

#[test]
fn a_lifetime_outlives_itself() {
    let a = universal_lt(0);
    let goal = Relation::outlives(lt(a), lt(a));
    let found = prove(roomy(), env_of(vec![a]), Wcs::t(), goal_of(vec![goal.clone()]));
    assert_eq!(found.len(), 1);
    assert!(found.contains(&Constraints::none(env_of(vec![a]))));
    assert!(!found.contains(&Constraints::none(env_of(vec![a]).with_pending(goal))));
    assert!(found.items()[0].substitution().is_empty());
    assert!(found.items()[0].env().pending().is_empty());
}

#[test]
fn static_outlives_static_has_one_plain_result() {
    let found = prove_outlives(&roomy(), &env_of(vec![]), &Wcs::t(), &static_lt(), &static_lt());
    assert_eq!(found.len(), 1);
    assert_eq!(found[0], Constraints::none(env_of(vec![])));
}

#[test]
fn the_trivial_rule_cuts_out_the_other_rules() {
    let a = universal_lt(0);
    let b = universal_lt(1);
    let env = || env_of(vec![a, b]);
    let same = prove_outlives(&roomy(), &env(), &Wcs::t(), &lt(a), &lt(a));
    assert_eq!(same, vec![Constraints::none(env())]);
    let different = prove_outlives(&roomy(), &env(), &Wcs::t(), &lt(a), &lt(b));
    let put_off = Constraints::none(env().with_pending(Relation::outlives(lt(a), lt(b))));
    assert_eq!(different, vec![put_off]);
    let from_static = prove_outlives(&roomy(), &env(), &Wcs::t(), &static_lt(), &lt(b));
    assert_eq!(from_static.len(), 2);
    assert_eq!(from_static[0], Constraints::none(env()));
    assert_eq!(
        from_static[1],
        Constraints::none(env().with_pending(Relation::outlives(static_lt(), lt(b))))
    );
}

#[test]
fn unrelated_existential_lifetimes_become_pending() {
    let a = existential_lt(0);
    let b = existential_lt(1);
    let relation = Relation::outlives(lt(a), lt(b));
    let found = prove(
        roomy(),
        env_of(vec![a, b]),
        goal_of(vec![relation.clone()]),
        goal_of(vec![relation.clone()]),
    );
    assert!(found.is_proven());
    assert_eq!(found.len(), 1);
    let only = &found.items()[0];
    assert!(only.is_known_true());
    assert!(only.substitution().is_empty());
    assert_eq!(only.env().variables(), &vec![a, b]);
    assert_eq!(only.env().pending(), &vec![relation]);
    assert!(only.is_valid_extension_of(&env_of(vec![a, b])));
}

#[test]
fn results_keep_the_names_of_the_caller() {
    let x = universal_lt(7);
    let unused = universal_lt(2);
    let y = existential_lt(4);
    let relation = Relation::outlives(lt(y), lt(x));
    let env = env_of(vec![x, unused, y]);
    let found = prove(roomy(), env, Wcs::t(), goal_of(vec![relation.clone()]));
    assert_eq!(found.len(), 1);
    let only = &found.items()[0];
    assert_eq!(only.env().variables(), &vec![x, unused, y]);
    assert_eq!(only.env().pending(), &vec![relation]);
    assert_eq!(only.env().bias(), Bias::Soundness);
}

#[test]
fn pending_relations_of_the_caller_come_first() {
    let a = universal_lt(0);
    let b = universal_lt(1);
    let earlier = Relation::outlives(lt(b), lt(a));
    let later = Relation::outlives(lt(a), lt(b));
    let env = env_of(vec![a, b]).with_pending(earlier.clone());
    let found = prove(roomy(), env, Wcs::t(), goal_of(vec![later.clone()]));
    assert_eq!(found.len(), 1);
    assert_eq!(found.items()[0].env().pending(), &vec![earlier, later]);
}

#[test]
fn a_relation_is_put_off_once() {
    let a = universal_lt(0);
    let b = universal_lt(1);
    let relation = Relation::outlives(lt(a), lt(b));
    let goal = goal_of(vec![relation.clone(), relation.clone()]);
    let found = prove(roomy(), env_of(vec![a, b]), Wcs::t(), goal);
    assert_eq!(found.len(), 1);
    assert_eq!(found.items()[0].env().pending(), &vec![relation]);
}

#[test]
fn every_combination_of_rules_is_kept() {
    let a = universal_lt(0);
    let b = universal_lt(1);
    let first = Relation::outlives(static_lt(), lt(a));
    let second = Relation::outlives(static_lt(), lt(b));
    let goal = goal_of(vec![first.clone(), second.clone()]);
    let found = prove(roomy(), env_of(vec![a, b]), Wcs::t(), goal);
    assert_eq!(found.len(), 4);
    let env = || env_of(vec![a, b]);
    assert!(found.contains(&Constraints::none(env())));
    assert!(found.contains(&Constraints::none(env().with_pending(first.clone()))));
    assert!(found.contains(&Constraints::none(env().with_pending(second.clone()))));
    assert!(found
        .contains(&Constraints::none(env().with_pending(first).with_pending(second))));
}

#[test]
fn the_empty_goal_holds_as_it_is() {
    let a = universal_lt(0);
    let found = prove(roomy(), env_of(vec![a]), Wcs::t(), Wcs::t());
    assert_eq!(found.len(), 1);
    assert_eq!(found.items()[0], Constraints::none(env_of(vec![a])));
}

#[test]
fn equal_terms_are_equal() {
    let a = universal_lt(0);
    let ty = Parameter::Ty(Ty::Ref(Lt::Var(a), Box::new(Ty::Scalar(3))));
    let goal = Relation::equals(ty.clone(), ty);
    let found = prove(roomy(), env_of(vec![a]), Wcs::t(), goal_of(vec![goal]));
    assert_eq!(found.len(), 1);
    assert_eq!(found.items()[0], Constraints::none(env_of(vec![a])));
}

#[test]
fn different_terms_are_not_equal() {
    let a = universal_lt(0);
    let b = universal_lt(1);
    let goal = Relation::equals(lt(a), lt(b));
    let found = prove(roomy(), env_of(vec![a, b]), Wcs::t(), goal_of(vec![goal]));
    assert!(!found.is_proven());
    assert_eq!(found.len(), 0);
    assert!(found.items().is_empty());
    let none = prove_eq(&roomy(), &env_of(vec![a, b]), &Wcs::t(), &lt(a), &lt(b));
    assert!(none.is_empty());
}

#[test]
fn a_failed_clause_fails_the_list() {
    let a = universal_lt(0);
    let b = universal_lt(1);
    let goal = goal_of(vec![
        Relation::outlives(lt(a), lt(b)),
        Relation::equals(lt(a), lt(b)),
        Relation::outlives(lt(b), lt(a)),
    ]);
    let found = prove_wc_list(&roomy(), &env_of(vec![a, b]), &Wcs::t(), &goal);
    assert!(found.is_empty());
}

#[test]
fn a_where_clause_goes_to_its_judgment() {
    let a = universal_lt(0);
    let env = env_of(vec![a]);
    let eq = prove_wc(&roomy(), &env, &Wcs::t(), &Relation::equals(lt(a), static_lt()));
    assert!(eq.is_empty());
    let outlives = prove_wc(&roomy(), &env, &Wcs::t(), &Relation::outlives(lt(a), static_lt()));
    assert_eq!(outlives.len(), 1);
}

#[test]
fn a_goal_at_the_limit_is_searched() {
    let a = universal_lt(0);
    let goal = goal_of(vec![Relation::outlives(static_lt(), lt(a))]);
    assert_eq!(goal.size(), Some(7));
    assert_eq!(Wcs::t().size(), Some(1));
    let found = prove(Decls { max_size: 8 }, env_of(vec![a]), Wcs::t(), goal);
    assert_eq!(found.len(), 2);
    assert!(found.items().iter().all(|c| c.is_known_true()));
}

#[test]
fn a_goal_over_the_limit_is_ambiguous() {
    let a = universal_lt(5);
    let goal = goal_of(vec![Relation::outlives(static_lt(), lt(a))]);
    let found = prove(Decls { max_size: 7 }, env_of(vec![a]), Wcs::t(), goal);
    assert!(found.is_proven());
    assert_eq!(found.len(), 1);
    let only = &found.items()[0];
    assert!(!only.is_known_true());
    assert!(!only.unconditionally_true());
    assert!(only.substitution().is_empty());
    assert!(only.env().pending().is_empty());
    assert_eq!(only.env().variables(), &vec![a]);
    assert_eq!(only, &Constraints::none(env_of(vec![a])).ambiguous());
    assert!(only.is_valid_extension_of(&env_of(vec![a])));
}

#[test]
fn an_oversize_goal_is_answered_in_the_environment_of_the_caller() {
    let unused = universal_lt(3);
    let earlier = Relation::outlives(lt(unused), static_lt());
    let env = || env_of(vec![unused]).with_pending(earlier.clone());
    let goal = goal_of(vec![Relation::outlives(static_lt(), static_lt())]);
    let found = prove(Decls { max_size: 0 }, env(), Wcs::t(), goal);
    assert_eq!(found.len(), 1);
    let only = &found.items()[0];
    assert_eq!(only, &Constraints::none(env()).ambiguous());
    assert_eq!(only.env().variables(), &vec![unused]);
    assert_eq!(only.env().pending(), &vec![earlier]);
    assert!(!only.is_known_true());
    assert!(only.substitution().is_empty());
}

#[test]
fn every_limit_below_the_size_gives_the_same_answer() {
    let a = universal_lt(0);
    for max_size in 0..8 {
        let goal = goal_of(vec![Relation::outlives(static_lt(), lt(a))]);
        let found = prove(Decls { max_size }, env_of(vec![a]), Wcs::t(), goal);
        assert_eq!(found.len(), 1);
        assert_eq!(found.items()[0], Constraints::none(env_of(vec![a])).ambiguous());
    }
}

#[test]
fn assumptions_count_towards_the_limit() {
    let a = universal_lt(0);
    let clause = Relation::outlives(static_lt(), lt(a));
    let found = prove(
        Decls { max_size: 13 },
        env_of(vec![a]),
        goal_of(vec![clause.clone()]),
        goal_of(vec![clause.clone()]),
    );
    assert!(!found.items()[0].is_known_true());
    let found = prove(
        Decls { max_size: 14 },
        env_of(vec![a]),
        goal_of(vec![clause.clone()]),
        goal_of(vec![clause]),
    );
    assert!(found.items()[0].is_known_true());
}

#[test]
fn proving_twice_gives_the_same_set() {
    let a = universal_lt(0);
    let b = existential_lt(1);
    let goal = || {
        goal_of(vec![Relation::outlives(lt(a), lt(b)), Relation::outlives(static_lt(), lt(a))])
    };
    let first = prove(roomy(), env_of(vec![a, b]), Wcs::t(), goal());
    let second = prove(roomy(), env_of(vec![a, b]), Wcs::t(), goal());
    assert_eq!(first.len(), second.len());
    assert!(first.items().iter().all(|c| second.contains(c)));
    assert!(second.items().iter().all(|c| first.contains(c)));
}

#[test]
fn minimizing_does_not_change_the_answer() {
    let x = universal_lt(7);
    let unused = existential_lt(2);
    let y = existential_lt(4);
    let relation = Relation::outlives(lt(y), lt(x));
    let goal = goal_of(vec![relation.clone(), Relation::outlives(static_lt(), lt(y))]);
    let env = || env_of(vec![x, unused, y]);
    let direct = prove_wc_list(&roomy(), &env(), &Wcs::t(), &goal);
    let (env_min, (assumptions_min, goal_min), min) = minimize(env(), (Wcs::t(), goal.clone()));
    let inner = prove_wc_list(&roomy(), &env_min, &assumptions_min, &goal_min);
    let back: Vec<Constraints> = inner.into_iter().map(|c| min.reconstitute(c)).collect();
    assert_eq!(back.len(), direct.len());
    assert!(back.iter().all(|c| direct.contains(c)));
    let found = prove(roomy(), env(), Wcs::t(), goal);
    assert_eq!(found.len(), direct.len());
    assert!(direct.iter().all(|c| found.contains(c)));
}

#[test]
fn a_goal_without_proof_is_definitely_not_provable() {
    let a = universal_lt(0);
    let b = universal_lt(1);
    let goal = || goal_of(vec![Relation::equals(lt(a), lt(b))]);
    let env = || env_of(vec![a, b]);
    assert!(is_definitely_not_proveable(roomy(), env(), Wcs::t(), goal()));
    assert!(may_not_be_provable(roomy(), env(), Wcs::t(), goal()));
    assert!(!prove(roomy(), env(), Wcs::t(), goal()).is_proven());
    let negation = negation_via_failure(roomy(), env(), Wcs::t(), goal());
    assert_eq!(negation.len(), 1);
    assert_eq!(negation.items()[0], Constraints::none(env()));
}

#[test]
fn a_goal_with_a_proof_is_not_refuted() {
    let a = universal_lt(0);
    let goal = || goal_of(vec![Relation::outlives(static_lt(), lt(a))]);
    let env = || env_of(vec![a]);
    assert!(!is_definitely_not_proveable(roomy(), env(), Wcs::t(), goal()));
    assert!(!may_not_be_provable(roomy(), env(), Wcs::t(), goal()));
    let negation = negation_via_failure(roomy(), env(), Wcs::t(), goal());
    assert!(!negation.is_proven());
    assert_eq!(negation.len(), 0);
}

#[test]
fn an_ambiguous_goal_may_not_be_provable() {
    let a = universal_lt(0);
    let goal = || goal_of(vec![Relation::outlives(static_lt(), lt(a))]);
    let env = || env_of(vec![a]);
    let tight = Decls { max_size: 2 };
    assert!(!is_definitely_not_proveable(tight, env(), Wcs::t(), goal()));
    assert!(may_not_be_provable(tight, env(), Wcs::t(), goal()));
    let negation = negation_via_failure(tight, env(), Wcs::t(), goal());
    assert_eq!(negation.len(), 1);
    assert_eq!(negation.items()[0], Constraints::none(env()).ambiguous());
    assert!(negation.items()[0].substitution().is_empty());
}

#[test]
fn the_proven_set_numbers_the_results() {
    let a = universal_lt(0);
    let goal = goal_of(vec![Relation::outlives(static_lt(), lt(a))]);
    let found = prove(roomy(), env_of(vec![a]), Wcs::t(), goal);
    let set = found.as_proven_set();
    assert!(set.is_proven());
    let numbers: Vec<usize> = set.iter().map(|(number, _)| number).collect();
    assert_eq!(numbers, vec![0, 1]);
}

#[test]
fn the_proven_set_of_a_failed_search_records_the_failure() {
    let a = universal_lt(0);
    let goal = goal_of(vec![Relation::equals(lt(a), static_lt())]);
    let found = prove(roomy(), env_of(vec![a]), Wcs::t(), goal);
    let set = found.as_proven_set();
    assert!(!set.is_proven());
    assert_eq!(set.iter().count(), 0);
    let text = format!("{set}");
    assert!(text.contains("no applicable rule"));
    assert!(text.contains("Judgment"));
}

#[test]
fn an_oversize_goal_need_not_be_in_scope() {
    let bound = universal_lt(0);
    let unbound = universal_lt(9);
    let goal = || goal_of(vec![Relation::outlives(lt(unbound), lt(bound))]);
    let env = || env_of(vec![bound]);
    assert!(!env().encloses(&goal()));
    let found = prove(Decls { max_size: 7 }, env(), Wcs::t(), goal());
    assert_eq!(found.len(), 1);
    assert_eq!(found.items()[0], Constraints::none(env()).ambiguous());
    assert!(may_not_be_provable(Decls { max_size: 7 }, env(), Wcs::t(), goal()));
    assert!(!is_definitely_not_proveable(Decls { max_size: 7 }, env(), Wcs::t(), goal()));
}
