//! Constraint-based type inference for a small functional language.
//!
//! The crate walks an already-parsed expression tree, produces a
//! typing-derivation tree together with a list of equality constraints
//! between type expressions, normalizes those constraints into rules of
//! the form `variable = type`, and solves the rules for the goal
//! variable by iterated simplification, recording every step for replay.

use vstd::prelude::*;

pub mod ast;
pub mod rules;
pub mod solver;
pub mod tree;

use crate::ast::AstNode;
use crate::rules::{
    lemma_cs_max_bound, normalize_constraints, normalize_spec, BuildError, RuleExpr, TypeExpr,
};
use crate::solver::{
    accumulate_log, accumulate_step_valid, error_evidence, remove_log, remove_step_valid, replays,
    solve_constraints, solved_frame, substitute_log, substitute_step_valid, Solution, SolverStep,
};
use crate::tree::{
    ast_size, emit, first_unbound, lemma_emit_bounds, result_type, tree_conforms, well_scoped,
    TypeInference,
};

verus! {

/// The constraints from index `i` on whose two sides differ, in order.
pub open spec fn nontrivial_from(cs: Seq<(TypeExpr, TypeExpr)>, i: int) -> Seq<
    (TypeExpr, TypeExpr),
>
    decreases cs.len() - i,
{
    if i < 0 || i >= cs.len() {
        Seq::empty()
    } else if cs[i].0 == cs[i].1 {
        nontrivial_from(cs, i + 1)
    } else {
        seq![cs[i]] + nontrivial_from(cs, i + 1)
    }
}

/// The constraints whose two sides differ, in order.
pub open spec fn nontrivial(cs: Seq<(TypeExpr, TypeExpr)>) -> Seq<(TypeExpr, TypeExpr)> {
    nontrivial_from(cs, 0)
}

/// Drop the constraints whose two sides are syntactically identical.
pub fn filter_trivial(constraints: &Vec<(TypeExpr, TypeExpr)>) -> (r: Vec<(TypeExpr, TypeExpr)>)
    ensures
        r@ == nontrivial(constraints@),
{
    let mut out: Vec<(TypeExpr, TypeExpr)> = Vec::new();
    let n = constraints.len();
    for i in 0..n
        invariant
            n == constraints@.len(),
            out@ + nontrivial_from(constraints@, i as int) == nontrivial(constraints@),
        decreases n - i,
    {
        let ghost out_before = out@;
        let c = &constraints[i];
        if !c.0.eq_type(&c.1) {
            out.push((c.0.clone(), c.1.clone()));
        }
        proof {
            assert(out@ + nontrivial_from(constraints@, i + 1) =~= out_before + nontrivial_from(
                constraints@,
                i as int,
            ));
        }
    }
    proof {
        assert(out@ + nontrivial_from(constraints@, n as int) =~= out@);
    }
    out
}

/// The structured outcome of inferring and solving one expression tree:
/// independently present parts, so that a failed stage leaves the
/// earlier stages' output inspectable.
pub struct Parsed {
    /// The failure of the derivation-tree builder, if it failed.
    pub constraints_error: Option<BuildError>,
    /// The typing-derivation tree.
    pub tree: Option<crate::tree::Tree>,
    /// All constraints gathered while building the tree.
    pub constraints: Option<Vec<(TypeExpr, TypeExpr)>>,
    /// The same constraints with syntactically identical pairs dropped.
    pub constraints_without_trivial: Option<Vec<(TypeExpr, TypeExpr)>>,
    /// The solver's outcome for the goal variable 0.
    pub solution: Option<Solution>,
}

/// Infer the type of the expression: build the derivation tree and the
/// constraints, normalize the constraints into rules, and solve them for
/// the goal variable 0.
pub fn solve(ast: AstNode) -> (r: Parsed)
    requires
        1 + 3 * ast_size(ast) <= usize::MAX,
    ensures
        ({
            let cs = emit(ast, Map::empty(), TypeExpr::Var(0), 1).0;
            match r.constraints_error {
                Some(e) => {
                    &&& !well_scoped(ast, Set::empty())
                    &&& e matches BuildError::UnboundVariable(s) && Some(s@) == first_unbound(
                        ast,
                        Set::empty(),
                    )
                    &&& r.tree is None
                    &&& r.constraints is None
                    &&& r.constraints_without_trivial is None
                    &&& r.solution is None
                },
                None => {
                    &&& well_scoped(ast, Set::empty())
                    &&& r.tree matches Some(tree) && tree.expr.0 == ast && tree.expr.1
                        == result_type(ast, TypeExpr::Var(0), 1) && tree.gamma@ == Map::<
                        Seq<char>,
                        TypeExpr,
                    >::empty() && tree_conforms(tree, TypeExpr::Var(0), 1)
                    &&& r.constraints matches Some(cs2) && cs2@ == cs
                    &&& r.constraints_without_trivial matches Some(nt) && nt@ == nontrivial(cs)
                    &&& (r.solution matches Some(sol) && {
                        &&& sol.rules@ == normalize_spec(cs)
                        &&& sol.result is Some
                        &&& exists|tr: Seq<SolverStep>|
                            {
                                &&& #[trigger] replays(normalize_spec(cs), 0, tr, sol.result)
                                &&& sol.result_remove_steps@ == remove_log(tr)
                                &&& sol.result_accumulate_steps@ == accumulate_log(tr)
                                &&& sol.result_substitute_steps@ == substitute_log(tr)
                            }
                        &&& forall|a: int| 0 <= a < sol.result_remove_steps@.len()
                            ==> remove_step_valid(#[trigger] sol.result_remove_steps@[a])
                        &&& forall|a: int| 0 <= a < sol.result_accumulate_steps@.len()
                            ==> accumulate_step_valid(#[trigger] sol.result_accumulate_steps@[a])
                        &&& forall|a: int| 0 <= a < sol.result_substitute_steps@.len()
                            ==> substitute_step_valid(#[trigger] sol.result_substitute_steps@[a])
                        &&& (match sol.result {
                            Some(Ok(g)) => g.var == 0 && exists|w: Seq<RuleExpr>|
                                #[trigger] solved_frame(w, g, 0),
                            Some(Err(e2)) => exists|w: Seq<RuleExpr>|
                                #[trigger] error_evidence(e2, w, 0),
                            None => false,
                        })
                    })
                },
            }
        }),
{
    match TypeInference::infer(ast) {
        Err(e) => Parsed {
            constraints_error: Some(e),
            tree: None,
            constraints: None,
            constraints_without_trivial: None,
            solution: None,
        },
        Ok((tree, constraints)) => {
            let without = filter_trivial(&constraints);
            proof {
                assert(Map::<Seq<char>, TypeExpr>::empty().dom() =~= Set::<Seq<char>>::empty());
                assert(TypeExpr::Var(0).below(1));
                lemma_emit_bounds(ast, Map::empty(), TypeExpr::Var(0), 1);
                lemma_cs_max_bound(
                    emit(ast, Map::empty(), TypeExpr::Var(0), 1).0,
                    emit(ast, Map::empty(), TypeExpr::Var(0), 1).1,
                );
            }
            let new_constraints = normalize_constraints(&constraints);
            let solution = solve_constraints(new_constraints, 0);
            Parsed {
                constraints_error: None,
                tree: Some(tree),
                constraints: Some(constraints),
                constraints_without_trivial: Some(without),
                solution: Some(solution),
            }
        },
    }
}

} // verus!
