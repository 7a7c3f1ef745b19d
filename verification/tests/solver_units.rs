//! Unit tests for the rule algebra and the solver phases.

use typers::rules::{clone_rules, get_max_var, normalize_constraints, RuleExpr, TypeExpr};

fn tvar(x: usize) -> TypeExpr {
    TypeExpr::Var(x)
}

fn tfun(a: TypeExpr, b: TypeExpr) -> TypeExpr {
    TypeExpr::Function(Box::new(a), Box::new(b))
}

fn ttup(a: TypeExpr, b: TypeExpr) -> TypeExpr {
    TypeExpr::Tuple(Box::new(a), Box::new(b))
}

fn rule(v: usize, rhs: TypeExpr) -> RuleExpr {
    RuleExpr { var: v, rhs }
}

#[test]
fn max_var_walks_the_whole_type() {
    assert_eq!(tfun(tvar(3), ttup(tvar(7), TypeExpr::Int)).max_var(), 7);
    assert_eq!(TypeExpr::Int.max_var(), 0);
}

#[test]
fn get_max_var_covers_both_sides() {
    let cs = vec![(tfun(tvar(3), TypeExpr::Int), tvar(1)), (TypeExpr::Bool, tvar(5))];
    assert_eq!(get_max_var(cs), 5);
    assert_eq!(get_max_var(vec![(TypeExpr::Int, TypeExpr::Bool)]), 0);
}

#[test]
fn normalization_keeps_variable_sides_and_splits_the_rest() {
    let cs = vec![
        (tvar(0), TypeExpr::Int),
        (TypeExpr::Bool, tvar(2)),
        (TypeExpr::Int, TypeExpr::Bool),
    ];
    let rules = normalize_constraints(&cs);
    assert_eq!(rules.len(), 4);
    assert!(rules[0].eq_rule(&rule(0, TypeExpr::Int)));
    assert!(rules[1].eq_rule(&rule(2, TypeExpr::Bool)));
    assert!(rules[2].eq_rule(&rule(3, TypeExpr::Int)));
    assert!(rules[3].eq_rule(&rule(3, TypeExpr::Bool)));
}

#[test]
fn substitution_replaces_both_sides_of_a_rule() {
    let mut r = rule(2, tfun(tvar(2), tvar(1)));
    r.replace_var(2, 1);
    assert!(r.eq_rule(&rule(1, tfun(tvar(1), tvar(1)))));
}

#[test]
fn is_simple_recognizes_variable_rules_only() {
    assert_eq!(rule(3, tvar(4)).is_simple(), Some((3, 4)));
    assert_eq!(rule(3, TypeExpr::Int).is_simple(), None);
}

#[test]
fn comparing_rules_decomposes_matching_shapes() {
    let a = rule(0, tfun(TypeExpr::Int, tvar(1)));
    let b = rule(0, tfun(tvar(2), TypeExpr::Bool));
    let added = a.compare_rules(&b).expect("the shapes match");
    assert_eq!(added.len(), 2);
    assert!(added[0].eq_rule(&rule(2, TypeExpr::Int)));
    assert!(added[1].eq_rule(&rule(1, TypeExpr::Bool)));
}

#[test]
fn comparing_rules_rejects_mismatched_shapes() {
    let a = rule(0, TypeExpr::Int);
    let b = rule(0, TypeExpr::Bool);
    assert!(a.compare_rules(&b).is_none());
    let c = rule(0, tfun(TypeExpr::Int, TypeExpr::Int));
    let d = rule(0, ttup(TypeExpr::Int, TypeExpr::Int));
    assert!(c.compare_rules(&d).is_none());
    // a bare variable right-hand side cannot be combined at the top level
    let e = rule(0, tvar(1));
    assert!(c.compare_rules(&e).is_none());
}

#[test]
fn clone_rules_copies_content() {
    let rs = vec![rule(0, TypeExpr::Int), rule(1, tvar(0))];
    let copy = clone_rules(&rs);
    assert_eq!(copy.len(), 2);
    assert!(copy[0].eq_rule(&rs[0]));
    assert!(copy[1].eq_rule(&rs[1]));
}
