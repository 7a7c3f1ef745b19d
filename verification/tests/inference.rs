//! End-to-end tests: infer and solve whole expressions.

use typers::ast::AstNode;
use typers::rules::{BuildError, RuleExpr, SolverError, TypeExpr};
use typers::solve;
use typers::solver::{solve_constraints, Solution};
use typers::tree::TypeEnv;

fn var(s: &str) -> AstNode {
    AstNode::Var(s.to_string())
}

fn abs(v: &str, body: AstNode) -> AstNode {
    AstNode::Abs { var: v.to_string(), body: Box::new(body) }
}

fn app(fun: AstNode, arg: AstNode) -> AstNode {
    AstNode::App { fun: Box::new(fun), arg: Box::new(arg) }
}

fn iszero(e: AstNode) -> AstNode {
    AstNode::IsZero(Box::new(e))
}

fn ite(c: AstNode, t: AstNode, e: AstNode) -> AstNode {
    AstNode::IfThenElse { cond: Box::new(c), then: Box::new(t), else_: Box::new(e) }
}

fn tuple(a: AstNode, b: AstNode) -> AstNode {
    AstNode::Tuple { fst: Box::new(a), snd: Box::new(b) }
}

fn tvar(x: usize) -> TypeExpr {
    TypeExpr::Var(x)
}

fn tfun(a: TypeExpr, b: TypeExpr) -> TypeExpr {
    TypeExpr::Function(Box::new(a), Box::new(b))
}

/// The solved goal rule of a fully successful run.
fn solved_type(ast: AstNode) -> TypeExpr {
    let parsed = solve(ast);
    assert!(parsed.constraints_error.is_none());
    let sol = parsed.solution.expect("solution should be present");
    match sol.result.expect("result should be finalized") {
        Ok(rule) => {
            assert_eq!(rule.var, 0);
            rule.rhs
        },
        Err(e) => panic!("expected a solved type, got error {:?}", e),
    }
}

/// The solver error of a run that fails during solving.
fn solver_error(ast: AstNode) -> SolverError {
    let parsed = solve(ast);
    assert!(parsed.constraints_error.is_none());
    let sol = parsed.solution.expect("solution should be present");
    match sol.result.expect("result should be finalized") {
        Ok(rule) => panic!("expected an error, got type {:?}", rule.rhs),
        Err(e) => e,
    }
}

#[test]
fn identity_infers_a_function_from_a_variable_to_itself() {
    let t = solved_type(abs("x", var("x")));
    assert!(t.eq_type(&tfun(tvar(2), tvar(2))));
    match t {
        TypeExpr::Function(a, b) => {
            assert!(a.eq_type(&b));
            assert!(matches!(*a, TypeExpr::Var(_)));
        },
        other => panic!("expected a function type, got {:?}", other),
    }
}

#[test]
fn iszero_abstraction_solves_to_int_to_bool() {
    let t = solved_type(abs("x", iszero(var("x"))));
    assert!(t.eq_type(&tfun(TypeExpr::Int, TypeExpr::Bool)));
}

#[test]
fn conditional_on_iszero_solves_to_int() {
    let t = solved_type(ite(
        iszero(AstNode::Int(0)),
        AstNode::Int(1),
        AstNode::Int(2),
    ));
    assert!(t.eq_type(&TypeExpr::Int));
}

#[test]
fn self_application_is_rejected() {
    let e = solver_error(abs("x", app(var("x"), var("x"))));
    assert!(matches!(
        e,
        SolverError::IncompatibleConstraint(_, _) | SolverError::RecursiveDefinition(_)
    ));
}

#[test]
fn unbound_variable_is_reported_by_name() {
    let parsed = solve(var("x"));
    match parsed.constraints_error {
        Some(BuildError::UnboundVariable(name)) => assert_eq!(name, "x"),
        other => panic!("expected an unbound-variable failure, got {:?}", other),
    }
    assert!(parsed.tree.is_none());
    assert!(parsed.constraints.is_none());
    assert!(parsed.constraints_without_trivial.is_none());
    assert!(parsed.solution.is_none());
}

#[test]
fn unbound_variable_under_a_binder_names_the_free_one() {
    let parsed = solve(abs("x", app(var("x"), var("y"))));
    match parsed.constraints_error {
        Some(BuildError::UnboundVariable(name)) => assert_eq!(name, "y"),
        other => panic!("expected an unbound-variable failure, got {:?}", other),
    }
}

#[test]
fn first_projection_of_int_bool_pair_solves_to_int() {
    let t = solved_type(AstNode::Fst(Box::new(tuple(AstNode::Int(1), AstNode::True))));
    assert!(t.eq_type(&TypeExpr::Int));
}

#[test]
fn second_projection_of_int_bool_pair_solves_to_bool() {
    let t = solved_type(AstNode::Snd(Box::new(tuple(AstNode::Int(1), AstNode::True))));
    assert!(t.eq_type(&TypeExpr::Bool));
}

#[test]
fn arithmetic_solves_to_int() {
    let e = AstNode::BinOp {
        op: typers::ast::BinOp::Plus,
        lhs: Box::new(AstNode::Int(1)),
        rhs: Box::new(AstNode::Int(2)),
    };
    let t = solved_type(e);
    assert!(t.eq_type(&TypeExpr::Int));
}

#[test]
fn iszero_of_a_boolean_is_incompatible() {
    let e = solver_error(iszero(AstNode::True));
    assert!(matches!(e, SolverError::IncompatibleConstraint(_, _)));
}

#[test]
fn shadowing_binds_the_inner_abstraction() {
    let t = solved_type(abs("x", abs("x", iszero(var("x")))));
    assert!(t.eq_type(&tfun(tvar(1), tfun(TypeExpr::Int, TypeExpr::Bool))));
}

#[test]
fn trivial_constraints_are_filtered_for_display() {
    let parsed = solve(ite(
        iszero(AstNode::Int(0)),
        AstNode::Int(1),
        AstNode::Int(2),
    ));
    let all = parsed.constraints.expect("constraints should be present");
    let without = parsed
        .constraints_without_trivial
        .expect("filtered constraints should be present");
    assert_eq!(all.len(), 4);
    assert_eq!(without.len(), 2);
    for (a, b) in &without {
        assert!(!a.eq_type(b));
    }
}

#[test]
fn derivation_tree_mirrors_the_expression() {
    let parsed = solve(ite(
        iszero(AstNode::Int(0)),
        AstNode::Int(1),
        AstNode::Int(2),
    ));
    let tree = parsed.tree.expect("tree should be present");
    assert_eq!(tree.constraints.len(), 3);
    assert_eq!(tree.expr.0.current_rule_str(), "if");
    assert_eq!(tree.constraints[0].expr.0.current_rule_str(), "iszero");
    assert_eq!(tree.constraints[1].expr.0.current_rule_str(), "Int");
    assert!(tree.constraints[0].expr.1.eq_type(&TypeExpr::Bool));
    assert!(tree.constraints[0].constraints[0].expr.1.eq_type(&TypeExpr::Int));
}

#[test]
fn step_ids_form_one_dense_increasing_order() {
    let parsed = solve(ite(
        iszero(AstNode::Int(0)),
        AstNode::Int(1),
        AstNode::Int(2),
    ));
    let sol = parsed.solution.expect("solution should be present");
    let total = sol.result_remove_steps.len() + sol.result_accumulate_steps.len()
        + sol.result_substitute_steps.len();
    let mut seen = vec![false; total];
    for s in &sol.result_remove_steps {
        seen[s.id] = true;
    }
    for s in &sol.result_accumulate_steps {
        seen[s.id] = true;
    }
    for s in &sol.result_substitute_steps {
        seen[s.id] = true;
    }
    assert!(seen.iter().all(|x| *x));
    for w in sol.result_accumulate_steps.windows(2) {
        assert!(w[0].id < w[1].id);
    }
    for w in sol.result_remove_steps.windows(2) {
        assert!(w[0].id < w[1].id);
    }
    for w in sol.result_substitute_steps.windows(2) {
        assert!(w[0].id < w[1].id);
    }
}

/// The rule set that a finished solve leaves behind: the working set of
/// the latest recorded step (or the initial rules when no step fired),
/// with the goal rule replaced by the solved rule.
fn final_rule_set(sol: &Solution, goal: usize) -> Vec<RuleExpr> {
    let solved = match sol.result.as_ref().expect("result should be finalized") {
        Ok(rule) => rule.clone(),
        Err(e) => panic!("expected a successful solution, got {:?}", e),
    };
    let mut best_id: Option<usize> = None;
    let mut working: Vec<RuleExpr> = sol.rules.clone();
    for s in &sol.result_accumulate_steps {
        if best_id.map_or(true, |b| s.id > b) {
            best_id = Some(s.id);
            working = s.rules_after.clone();
        }
    }
    for s in &sol.result_remove_steps {
        if best_id.map_or(true, |b| s.id > b) {
            best_id = Some(s.id);
            working = s.rules_after.clone();
        }
    }
    for s in &sol.result_substitute_steps {
        if best_id.map_or(true, |b| s.id > b) {
            best_id = Some(s.id);
            working = s.rules_available.clone();
        }
    }
    let mut out: Vec<RuleExpr> = Vec::new();
    let mut replaced = false;
    for r in &working {
        if !replaced && r.var == goal {
            out.push(solved.clone());
            replaced = true;
        } else {
            out.push(r.clone());
        }
    }
    assert!(replaced, "the working set should contain a rule for the goal");
    out
}

fn assert_rerun_is_idempotent(ast: AstNode) {
    let parsed = solve(ast);
    let sol = parsed.solution.expect("solution should be present");
    let first = match sol.result.as_ref().expect("result should be finalized") {
        Ok(rule) => rule.clone(),
        Err(e) => panic!("expected a successful solution, got {:?}", e),
    };
    let again = solve_constraints(final_rule_set(&sol, 0), 0);
    assert_eq!(again.result_accumulate_steps.len(), 0);
    assert_eq!(again.result_remove_steps.len(), 0);
    assert_eq!(again.result_substitute_steps.len(), 0);
    match again.result.expect("result should be finalized") {
        Ok(rule) => {
            assert_eq!(rule.var, 0);
            assert!(rule.rhs.eq_type(&first.rhs));
        },
        Err(e) => panic!("the re-run should succeed, got {:?}", e),
    }
}

#[test]
fn rerunning_the_pipeline_on_its_final_rules_does_nothing_substitution_case() {
    assert_rerun_is_idempotent(abs("x", iszero(var("x"))));
}

#[test]
fn rerunning_the_pipeline_on_its_final_rules_does_nothing_accumulate_case() {
    assert_rerun_is_idempotent(ite(iszero(AstNode::Int(0)), AstNode::Int(1), AstNode::Int(2)));
}

#[test]
fn rerunning_the_pipeline_on_its_final_rules_does_nothing_projection_case() {
    assert_rerun_is_idempotent(AstNode::Fst(Box::new(tuple(AstNode::Int(1), AstNode::True))));
}

#[test]
fn well_typed_expressions_solve_to_ground_types() {
    let samples = vec![
        abs("x", iszero(var("x"))),
        ite(iszero(AstNode::Int(0)), AstNode::Int(1), AstNode::Int(2)),
        AstNode::Fst(Box::new(tuple(AstNode::Int(1), AstNode::True))),
        AstNode::Snd(Box::new(tuple(AstNode::Int(1), AstNode::True))),
        iszero(AstNode::Int(7)),
        tuple(AstNode::Int(1), AstNode::False),
    ];
    for ast in samples {
        let t = solved_type(ast);
        let mut stack = vec![t];
        while let Some(x) = stack.pop() {
            match x {
                TypeExpr::Var(v) => panic!("expected a ground type, found variable {}", v),
                TypeExpr::Int | TypeExpr::Bool => {},
                TypeExpr::Function(a, b) => {
                    stack.push(*a);
                    stack.push(*b);
                },
                TypeExpr::Tuple(a, b) => {
                    stack.push(*a);
                    stack.push(*b);
                },
            }
        }
    }
}

#[test]
fn applying_the_identity_is_rejected_by_the_greedy_solver() {
    // classically well typed, but the greedy accumulate phase sees the
    // two rules for the function's variable — one a bare variable, one a
    // concrete type — and refuses to combine them
    let e = solver_error(app(abs("x", var("x")), AstNode::Int(1)));
    assert!(matches!(e, SolverError::IncompatibleConstraint(_, _)));
}

#[test]
fn the_environment_shadows_and_looks_up_by_name() {
    let mut env = TypeEnv::new();
    assert!(env.get(&"x".to_string()).is_none());
    env.insert("x".to_string(), TypeExpr::Int);
    env.insert("y".to_string(), TypeExpr::Bool);
    assert!(env.get(&"x".to_string()).unwrap().eq_type(&TypeExpr::Int));
    assert!(env.get(&"y".to_string()).unwrap().eq_type(&TypeExpr::Bool));
    env.insert("x".to_string(), TypeExpr::Bool);
    assert!(env.get(&"x".to_string()).unwrap().eq_type(&TypeExpr::Bool));
    let copy = env.clone();
    assert!(copy.get(&"y".to_string()).unwrap().eq_type(&TypeExpr::Bool));
}

#[test]
fn the_builder_emits_the_expected_constraints_for_the_identity() {
    let parsed = solve(abs("x", var("x")));
    let cs = parsed.constraints.expect("constraints should be present");
    assert_eq!(cs.len(), 2);
    // the whole abstraction: t0 = t1 -> t2
    assert!(cs[0].0.eq_type(&tvar(0)));
    assert!(cs[0].1.eq_type(&tfun(tvar(1), tvar(2))));
    // the body: the binder's type equals the expected body type
    assert!(cs[1].0.eq_type(&tvar(1)));
    assert!(cs[1].1.eq_type(&tvar(2)));
    let sol = parsed.solution.expect("solution should be present");
    assert!(sol.rules[0].eq_rule(&RuleExpr { var: 0, rhs: tfun(tvar(1), tvar(2)) }));
    assert!(sol.rules[1].eq_rule(&RuleExpr { var: 1, rhs: tvar(2) }));
    assert_eq!(sol.variables, vec![0, 1, 2]);
}
