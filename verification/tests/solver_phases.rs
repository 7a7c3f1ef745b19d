//! Tests for the solver's phases and for whole solve runs on
//! hand-written rule sets.

use typers::rules::{RuleExpr, SolverError, TypeExpr};
use typers::solver::{
    accumulate_constraints, check_cycles, find_goal_rule, remove_simple_rule, solve_constraints,
    substitute_constraints, variables,
};

fn tvar(x: usize) -> TypeExpr {
    TypeExpr::Var(x)
}

fn tfun(a: TypeExpr, b: TypeExpr) -> TypeExpr {
    TypeExpr::Function(Box::new(a), Box::new(b))
}

fn ttup(a: TypeExpr, b: TypeExpr) -> TypeExpr {
    TypeExpr::Tuple(Box::new(a), Box::new(b))
}

fn rule(v: usize, rhs: TypeExpr) -> RuleExpr {
    RuleExpr { var: v, rhs }
}

#[test]
fn accumulate_finds_the_first_sharing_pair() {
    let mut rules = vec![
        rule(0, TypeExpr::Int),
        rule(1, tfun(TypeExpr::Int, tvar(3))),
        rule(1, tfun(tvar(4), TypeExpr::Bool)),
    ];
    let step = accumulate_constraints(&mut rules, 0)
        .expect("no contradiction")
        .expect("a pair exists");
    assert_eq!(step.id, 0);
    assert_eq!(step.rules_before.len(), 3);
    assert_eq!(step.rules_added.len(), 2);
    assert!(step.rules_added[0].eq_rule(&rule(4, TypeExpr::Int)));
    assert!(step.rules_added[1].eq_rule(&rule(3, TypeExpr::Bool)));
    assert_eq!(rules.len(), 4);
    assert!(rules[0].eq_rule(&rule(0, TypeExpr::Int)));
    assert!(rules[1].eq_rule(&rule(1, tfun(TypeExpr::Int, tvar(3)))));
}

#[test]
fn accumulate_reports_incompatible_shapes() {
    let mut rules = vec![rule(0, TypeExpr::Int), rule(0, TypeExpr::Bool)];
    match accumulate_constraints(&mut rules, 0) {
        Err(SolverError::IncompatibleConstraint(a, b)) => {
            assert!(a.eq_rule(&rule(0, TypeExpr::Int)));
            assert!(b.eq_rule(&rule(0, TypeExpr::Bool)));
        },
        other => panic!("expected a contradiction, got {:?}", other),
    }
}

#[test]
fn accumulate_does_nothing_without_shared_sides() {
    let mut rules = vec![rule(0, TypeExpr::Int), rule(1, TypeExpr::Bool)];
    let r = accumulate_constraints(&mut rules, 5).expect("no contradiction");
    assert!(r.is_none());
    assert_eq!(rules.len(), 2);
}

#[test]
fn remove_eliminates_the_larger_variable() {
    let mut rules = vec![rule(2, tvar(1)), rule(2, TypeExpr::Int)];
    let step = remove_simple_rule(&mut rules, 3)
        .expect("no self reference")
        .expect("a trivial rule exists");
    assert_eq!(step.id, 3);
    assert_eq!(step.rules_removed.len(), 1);
    assert!(step.rules_removed[0].eq_rule(&rule(2, tvar(1))));
    assert_eq!(rules.len(), 1);
    assert!(rules[0].eq_rule(&rule(1, TypeExpr::Int)));
}

#[test]
fn remove_rejects_a_self_reference() {
    let mut rules = vec![rule(1, tvar(1))];
    match remove_simple_rule(&mut rules, 0) {
        Err(SolverError::RecursiveDefinition(v)) => assert_eq!(v, 1),
        other => panic!("expected a recursive definition, got {:?}", other),
    }
}

#[test]
fn cycle_check_accepts_acyclic_rules() {
    let rules = vec![
        rule(0, tfun(tvar(1), tvar(2))),
        rule(1, TypeExpr::Int),
        rule(2, TypeExpr::Bool),
    ];
    assert!(check_cycles(&rules).is_ok());
}

#[test]
fn cycle_check_rejects_a_two_step_cycle() {
    let rules = vec![rule(1, ttup(tvar(2), TypeExpr::Int)), rule(2, tvar(1))];
    match check_cycles(&rules) {
        Err(SolverError::CycleDetected) => {},
        other => panic!("expected a cycle, got {:?}", other),
    }
}

#[test]
fn cycle_check_rejects_a_self_loop() {
    let rules = vec![rule(3, tfun(tvar(3), TypeExpr::Int))];
    assert!(matches!(check_cycles(&rules), Err(SolverError::CycleDetected)));
}

#[test]
fn goal_lookup_reports_a_missing_goal() {
    let mut rules = vec![rule(1, TypeExpr::Int)];
    match find_goal_rule(&mut rules, 0) {
        Err(SolverError::GoalNotFound(v)) => assert_eq!(v, 0),
        other => panic!("expected a missing goal, got {:?}", other),
    }
    let g = find_goal_rule(&mut rules, 1).expect("rule 1 exists");
    assert!(g.eq_rule(&rule(1, TypeExpr::Int)));
}

#[test]
fn substitution_inlines_one_rule_at_a_time() {
    let mut rules = vec![rule(0, tfun(tvar(1), tvar(2))), rule(1, TypeExpr::Int), rule(
        2,
        TypeExpr::Bool,
    )];
    let mut goal = rule(0, tfun(tvar(1), tvar(2)));
    let step = substitute_constraints(&mut rules, &mut goal, 0, 0)
        .expect("substitution cannot fail")
        .expect("a rule applies");
    assert!(step.rule_used.eq_rule(&rule(1, TypeExpr::Int)));
    assert!(goal.eq_rule(&rule(0, tfun(TypeExpr::Int, tvar(2)))));
    let step2 = substitute_constraints(&mut rules, &mut goal, 0, 1)
        .expect("substitution cannot fail")
        .expect("a rule applies");
    assert!(step2.rule_used.eq_rule(&rule(2, TypeExpr::Bool)));
    assert!(goal.eq_rule(&rule(0, tfun(TypeExpr::Int, TypeExpr::Bool))));
    let none = substitute_constraints(&mut rules, &mut goal, 0, 2)
        .expect("substitution cannot fail");
    assert!(none.is_none());
}

#[test]
fn variables_are_sorted_and_deduplicated() {
    let rules = vec![rule(2, tfun(tvar(0), tvar(2))), rule(0, tvar(5))];
    assert_eq!(variables(rules), vec![0, 2, 5]);
    assert_eq!(variables(vec![]), Vec::<usize>::new());
}

#[test]
fn solving_an_empty_rule_set_misses_the_goal() {
    let sol = solve_constraints(vec![], 0);
    assert!(sol.rules.is_empty());
    assert!(sol.variables.is_empty());
    match sol.result.expect("result should be finalized") {
        Err(SolverError::GoalNotFound(v)) => assert_eq!(v, 0),
        other => panic!("expected a missing goal, got {:?}", other),
    }
}

#[test]
fn solving_records_the_initial_rules_and_variables() {
    let rules = vec![rule(0, tfun(tvar(1), tvar(2))), rule(1, tvar(2))];
    let sol = solve_constraints(rules, 0);
    assert_eq!(sol.rules.len(), 2);
    assert!(sol.rules[0].eq_rule(&rule(0, tfun(tvar(1), tvar(2)))));
    assert_eq!(sol.variables, vec![0, 1, 2]);
}

#[test]
fn solving_substitutes_the_goal_to_a_fixpoint() {
    let rules = vec![
        rule(0, tfun(tvar(1), tvar(2))),
        rule(1, TypeExpr::Int),
        rule(2, TypeExpr::Bool),
    ];
    let sol = solve_constraints(rules, 0);
    assert_eq!(sol.result_substitute_steps.len(), 2);
    match sol.result.expect("result should be finalized") {
        Ok(g) => assert!(g.eq_rule(&rule(0, tfun(TypeExpr::Int, TypeExpr::Bool)))),
        other => panic!("expected success, got {:?}", other),
    }
}

#[test]
fn solving_detects_an_indirect_cycle() {
    let rules = vec![rule(0, ttup(tvar(1), tvar(2))), rule(1, tvar(2)), rule(
        2,
        tfun(tvar(1), TypeExpr::Int),
    )];
    let sol = solve_constraints(rules, 0);
    match sol.result.expect("result should be finalized") {
        Err(SolverError::CycleDetected) => {},
        other => panic!("expected a cycle, got {:?}", other),
    }
}

#[test]
fn duplicated_identical_rules_trip_the_occurs_check() {
    let rules = vec![
        rule(0, tfun(tvar(1), tvar(2))),
        rule(0, tfun(tvar(1), tvar(2))),
    ];
    let sol = solve_constraints(rules, 0);
    match sol.result.expect("result should be finalized") {
        Err(SolverError::RecursiveDefinition(v)) => assert_eq!(v, 1),
        other => panic!("expected a recursive definition, got {:?}", other),
    }
}
