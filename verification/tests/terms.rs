use formality_prove::minimize::minimize;
use formality_prove::{
    Bias, Constraints, Env, Lt, Parameter, ParameterKind, Quantifier, Relation, Ty, Variable, Wcs,
};

fn universal_lt(index: usize) -> Variable {
    Variable::universal(ParameterKind::Lt, index)
}

fn existential_lt(index: usize) -> Variable {
    Variable::existential(ParameterKind::Lt, index)
}

fn lt(v: Variable) -> Parameter {
    Parameter::Lt(Lt::Var(v))
}

fn reference(lifetime: Lt, to: Ty) -> Ty {
    Ty::Ref(lifetime, Box::new(to))
}

#[test]
fn sizes_count_constructors() {
    let a = universal_lt(0);
    assert_eq!(Parameter::Lt(Lt::Static).size(), Some(2));
    assert_eq!(lt(a).size(), Some(3));
    assert_eq!(Ty::Scalar(9).size(), Some(2));
    assert_eq!(Ty::Var(Variable::universal(ParameterKind::Ty, 0)).size(), Some(2));
    assert_eq!(reference(Lt::Static, Ty::Scalar(9)).size(), Some(4));
    assert_eq!(reference(Lt::Var(a), reference(Lt::Static, Ty::Scalar(9))).size(), Some(7));
    assert_eq!(Parameter::Ty(reference(Lt::Static, Ty::Scalar(9))).size(), Some(5));
    let relation = Relation::outlives(Parameter::Lt(Lt::Static), lt(a));
    assert_eq!(relation.size(), Some(6));
    assert_eq!(Wcs::from_vec(vec![relation.clone(), relation]).size(), Some(13));
}

#[test]
fn free_variables_come_left_to_right_with_repeats() {
    let a = universal_lt(0);
    let b = existential_lt(1);
    let t = Variable::universal(ParameterKind::Ty, 2);
    let ty = Parameter::Ty(reference(Lt::Var(b), reference(Lt::Var(a), Ty::Var(t))));
    let wcs = Wcs::from_vec(vec![
        Relation::outlives(lt(a), ty),
        Relation::equals(Parameter::Lt(Lt::Static), lt(a)),
    ]);
    assert_eq!(wcs.free_variables(), vec![a, b, a, t, a]);
    assert_eq!(Wcs::t().free_variables(), vec![]);
}

#[test]
fn terms_compare_by_structure() {
    let a = universal_lt(0);
    let one = reference(Lt::Var(a), Ty::Scalar(1));
    let same = reference(Lt::Var(a), Ty::Scalar(1));
    let other = reference(Lt::Static, Ty::Scalar(1));
    assert!(one.same(&same));
    assert!(!one.same(&other));
    assert_eq!(one.clone(), one);
    assert!(Parameter::Ty(one.clone()).same(&Parameter::Ty(same)));
    assert!(!Parameter::Ty(one).same(&lt(a)));
    assert!(Parameter::Lt(Lt::Static).is_static());
    assert!(!lt(a).is_static());
    let r = Relation::outlives(lt(a), lt(a));
    assert!(r.same(&r.clone()));
    assert!(!r.same(&Relation::equals(lt(a), lt(a))));
}

#[test]
fn variables_know_their_quantifier() {
    let a = universal_lt(3);
    let b = existential_lt(3);
    assert!(a.is_universal() && !a.is_existential());
    assert!(b.is_existential() && !b.is_universal());
    assert_eq!(a.quantifier, Quantifier::Universal);
    assert_eq!(b.index, 3);
    assert_ne!(a, b);
}

#[test]
fn an_environment_encloses_what_it_binds() {
    let a = universal_lt(0);
    let b = universal_lt(1);
    let env = Env::with_variables(vec![a], Bias::Completeness);
    assert!(env.contains(a));
    assert!(!env.contains(b));
    assert!(env.encloses_relation(&Relation::outlives(lt(a), Parameter::Lt(Lt::Static))));
    assert!(!env.encloses_relation(&Relation::outlives(lt(a), lt(b))));
    assert!(env.encloses(&Wcs::t()));
    assert!(!env.encloses(&Wcs::from_vec(vec![Relation::equals(lt(b), lt(b))])));
    assert_eq!(env.bias(), Bias::Completeness);
    assert_eq!(env.with_bias(Bias::Soundness).bias(), Bias::Soundness);
}

#[test]
fn fresh_variables_take_the_next_index() {
    let env = Env::new(Bias::Soundness);
    let (env, first) = env.fresh_variable(Quantifier::Existential, ParameterKind::Lt);
    assert_eq!(first, Some(existential_lt(0)));
    let env = Env::with_variables(vec![universal_lt(4), universal_lt(2)], env.bias());
    let (env, second) = env.fresh_variable(Quantifier::Universal, ParameterKind::Ty);
    let expected = Variable::universal(ParameterKind::Ty, 5);
    assert_eq!(second, Some(expected));
    assert_eq!(env.variables(), &vec![universal_lt(4), universal_lt(2), expected]);
    let full = Env::with_variables(vec![universal_lt(usize::MAX)], Bias::Soundness);
    let (full, none) = full.fresh_variable(Quantifier::Universal, ParameterKind::Lt);
    assert_eq!(none, None);
    assert_eq!(full.variables().len(), 1);
}

#[test]
fn a_variable_in_use_stays_in_scope() {
    let a = universal_lt(0);
    let b = universal_lt(1);
    let env = Env::with_variables(vec![a, b], Bias::Soundness);
    let (env, popped) = env.pop_variable();
    assert_eq!(popped, Some(b));
    let env = env.with_pending(Relation::outlives(lt(a), lt(a)));
    let (env, kept) = env.pop_variable();
    assert_eq!(kept, None);
    assert_eq!(env.variables(), &vec![a]);
    let (_, nothing) = Env::new(Bias::Soundness).pop_variable();
    assert_eq!(nothing, None);
}

#[test]
fn extension_keeps_variables_and_earlier_pending() {
    let a = universal_lt(0);
    let b = universal_lt(1);
    let base = Env::with_variables(vec![a, b], Bias::Soundness);
    let more = base.clone().with_pending(Relation::outlives(lt(a), lt(b)));
    assert!(more.is_valid_extension_of(&base));
    assert!(!base.is_valid_extension_of(&more));
    assert!(base.is_valid_extension_of(&base));
    assert!(!base.clone().with_bias(Bias::Completeness).is_valid_extension_of(&base));
    assert!(!Env::with_variables(vec![a], Bias::Soundness).is_valid_extension_of(&base));
    assert!(base.same(&base.clone()));
    assert!(!base.same(&more));
}

#[test]
fn a_substitution_binds_existential_variables_once() {
    let a = universal_lt(0);
    let x = existential_lt(1);
    let env = || Env::with_variables(vec![a, x], Bias::Soundness);
    let bound = Constraints::new(env(), true, vec![(x, lt(a))]).unwrap();
    assert!(!bound.unconditionally_true());
    assert!(bound.is_known_true());
    assert_eq!(bound.substitution(), &vec![(x, lt(a))]);
    assert!(Constraints::new(env(), true, vec![(a, lt(x))]).is_none());
    assert!(Constraints::new(env(), true, vec![(x, lt(a)), (x, lt(a))]).is_none());
    assert!(Constraints::new(env(), true, vec![(x, lt(universal_lt(9)))]).is_none());
    assert!(Constraints::new(env(), true, vec![(existential_lt(9), lt(a))]).is_none());
    assert!(Constraints::new(env(), false, vec![]).unwrap().same(&Constraints::none(env()).ambiguous()));
}

#[test]
fn minimizing_numbers_variables_as_they_occur() {
    let x = universal_lt(7);
    let unused = universal_lt(2);
    let y = existential_lt(4);
    let env = Env::with_variables(vec![x, unused, y], Bias::Completeness);
    let goal = Wcs::from_vec(vec![Relation::outlives(lt(y), lt(x))]);
    let assumptions = Wcs::from_vec(vec![Relation::outlives(lt(x), lt(x))]);
    let (env_min, (assumptions_min, goal_min), min) = minimize(env, (assumptions, goal));
    let x_min = universal_lt(0);
    let y_min = existential_lt(1);
    assert_eq!(env_min.variables(), &vec![x_min, y_min]);
    assert_eq!(env_min.bias(), Bias::Completeness);
    assert_eq!(assumptions_min.clauses, vec![Relation::outlives(lt(x_min), lt(x_min))]);
    assert_eq!(goal_min.clauses, vec![Relation::outlives(lt(y_min), lt(x_min))]);
    assert_eq!(min.env_max().variables(), &vec![x, unused, y]);
}

#[test]
fn reconstituting_restores_names_in_every_part() {
    let x = universal_lt(7);
    let y = existential_lt(4);
    let env = Env::with_variables(vec![x, y], Bias::Soundness)
        .with_pending(Relation::outlives(lt(x), lt(y)));
    let goal = Wcs::from_vec(vec![Relation::equals(lt(y), lt(x))]);
    let (env_min, _, min) = minimize(env, (Wcs::t(), goal));
    let y_min = existential_lt(0);
    let x_min = universal_lt(1);
    assert_eq!(env_min.pending(), &vec![Relation::outlives(lt(x_min), lt(y_min))]);
    let later = Relation::outlives(lt(y_min), Parameter::Lt(Lt::Static));
    let result =
        Constraints::new(env_min.with_pending(later), false, vec![(y_min, lt(x_min))]).unwrap();
    let back = min.reconstitute(result);
    assert_eq!(back.env().variables(), &vec![x, y]);
    assert_eq!(
        back.env().pending(),
        &vec![
            Relation::outlives(lt(x), lt(y)),
            Relation::outlives(lt(y), Parameter::Lt(Lt::Static)),
        ]
    );
    assert_eq!(back.substitution(), &vec![(y, lt(x))]);
    assert!(!back.is_known_true());
    assert!(back.is_valid_extension_of(min.env_max()));
}
