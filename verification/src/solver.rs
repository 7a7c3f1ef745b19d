//! The constraint solver: iterated accumulate/remove simplification of a
//! rule set, a cycle check over the variable dependencies, and the
//! substitution of rules into the goal rule, with every step recorded.

use vstd::prelude::*;

use crate::rules::{
    all_hold, clone_rules, compare_spec, lemma_all_hold_concat, lemma_compare_preserves, rule_holds,
    RuleExpr, SolverError, TypeExpr,
};

verus! {

// ---------------------------------------------------------------------------
// Recorded steps
// ---------------------------------------------------------------------------

/// The record of one remove step: a trivial rule `Var(x) = Var(y)` was
/// eliminated and the larger of the two ids replaced by the smaller one.
#[derive(Debug)]
pub struct ResultRemoveStep {
    pub id: usize,
    pub rules_before: Vec<RuleExpr>,
    pub rules_after: Vec<RuleExpr>,
    pub rules_removed: Vec<RuleExpr>,
}

/// The record of one accumulate step: two rules sharing a left-hand side
/// were compared and replaced by the rules derived from their right-hand
/// sides.
#[derive(Debug)]
pub struct ResultAccumulateStep {
    pub id: usize,
    pub rules_before: Vec<RuleExpr>,
    pub rules_after: Vec<RuleExpr>,
    pub rules_added: Vec<RuleExpr>,
    pub rules_compared: (RuleExpr, RuleExpr),
}

/// The record of one substitute step: one rule was inlined into the goal
/// rule's right-hand side.
#[derive(Debug)]
pub struct ResultSubstituteStep {
    pub id: usize,
    pub goal_id: usize,
    pub rules_available: Vec<RuleExpr>,
    pub rule_goal_before: RuleExpr,
    pub rule_goal_after: RuleExpr,
    pub rule_used: RuleExpr,
}

impl Clone for ResultRemoveStep {
    /// A clone is equal to the original, field for field.
    fn clone(&self) -> (res: Self)
        ensures
            res.id == self.id,
            res.rules_before@ == self.rules_before@,
            res.rules_after@ == self.rules_after@,
            res.rules_removed@ == self.rules_removed@,
    {
        ResultRemoveStep {
            id: self.id,
            rules_before: clone_rules(&self.rules_before),
            rules_after: clone_rules(&self.rules_after),
            rules_removed: clone_rules(&self.rules_removed),
        }
    }
}

impl Clone for ResultAccumulateStep {
    /// A clone is equal to the original, field for field.
    fn clone(&self) -> (res: Self)
        ensures
            res.id == self.id,
            res.rules_before@ == self.rules_before@,
            res.rules_after@ == self.rules_after@,
            res.rules_added@ == self.rules_added@,
            res.rules_compared == self.rules_compared,
    {
        ResultAccumulateStep {
            id: self.id,
            rules_before: clone_rules(&self.rules_before),
            rules_after: clone_rules(&self.rules_after),
            rules_added: clone_rules(&self.rules_added),
            rules_compared: (self.rules_compared.0.clone(), self.rules_compared.1.clone()),
        }
    }
}

impl Clone for ResultSubstituteStep {
    /// A clone is equal to the original, field for field.
    fn clone(&self) -> (res: Self)
        ensures
            res.id == self.id,
            res.goal_id == self.goal_id,
            res.rules_available@ == self.rules_available@,
            res.rule_goal_before == self.rule_goal_before,
            res.rule_goal_after == self.rule_goal_after,
            res.rule_used == self.rule_used,
    {
        ResultSubstituteStep {
            id: self.id,
            goal_id: self.goal_id,
            rules_available: clone_rules(&self.rules_available),
            rule_goal_before: self.rule_goal_before.clone(),
            rule_goal_after: self.rule_goal_after.clone(),
            rule_used: self.rule_used.clone(),
        }
    }
}

// ---------------------------------------------------------------------------
// Scanning order of the greedy phases
// ---------------------------------------------------------------------------

/// The smallest index `j' >= j` whose rule constrains the same variable as
/// rule `i`, if any.
pub open spec fn first_partner(rs: Seq<RuleExpr>, i: int, j: int) -> Option<int>
    decreases rs.len() - j,
{
    if j < 0 || j >= rs.len() {
        None
    } else if rs[j].var == rs[i].var {
        Some(j)
    } else {
        first_partner(rs, i, j + 1)
    }
}

/// The first pair of indices `(i, j)`, `i < j`, whose rules constrain the
/// same variable, in the scanning order of the accumulate phase.
pub open spec fn first_dup_from(rs: Seq<RuleExpr>, i: int) -> Option<(int, int)>
    decreases rs.len() - i,
{
    if i < 0 || i >= rs.len() {
        None
    } else {
        match first_partner(rs, i, i + 1) {
            Some(j) => Some((i, j)),
            None => first_dup_from(rs, i + 1),
        }
    }
}

/// The first pair of rules sharing a left-hand side, if any.
pub open spec fn first_dup(rs: Seq<RuleExpr>) -> Option<(int, int)> {
    first_dup_from(rs, 0)
}

/// The smallest index `i' >= i` of a rule of the shape `Var(x) = Var(y)`,
/// if any.
pub open spec fn first_simple(rs: Seq<RuleExpr>, i: int) -> Option<int>
    decreases rs.len() - i,
{
    if i < 0 || i >= rs.len() {
        None
    } else if rs[i].rhs is Var {
        Some(i)
    } else {
        first_simple(rs, i + 1)
    }
}

/// The smallest index `k >= i` of a rule whose left-hand side is `v`, if
/// any.
pub open spec fn first_rule_from(rs: Seq<RuleExpr>, v: int, i: int) -> Option<int>
    decreases rs.len() - i,
{
    if i < 0 || i >= rs.len() {
        None
    } else if rs[i].var as int == v {
        Some(i)
    } else {
        first_rule_from(rs, v, i + 1)
    }
}

/// No two rules constrain the same variable.
pub open spec fn no_shared_lhs(rs: Seq<RuleExpr>) -> bool {
    forall|i: int, j: int| 0 <= i < j < rs.len() ==> (#[trigger] rs[i]).var != (#[trigger] rs[j]).var
}

/// When the scan finds no partner for rule `i` from position `j` on, no
/// later rule shares its left-hand side — and the other way round.
pub proof fn lemma_first_partner_none(rs: Seq<RuleExpr>, i: int, j: int)
    requires
        0 <= j,
    ensures
        first_partner(rs, i, j) is None <==> forall|j2: int|
            j <= j2 < rs.len() ==> (#[trigger] rs[j2]).var != rs[i].var,
    decreases rs.len() - j,
{
    if j < 0 || j >= rs.len() {
    } else {
        lemma_first_partner_none(rs, i, j + 1);
    }
}

/// When the scan finds no duplicate pair from row `i` on, no two later
/// rules share a left-hand side — and the other way round.
pub proof fn lemma_first_dup_from_none(rs: Seq<RuleExpr>, i: int)
    requires
        0 <= i,
    ensures
        first_dup_from(rs, i) is None <==> forall|i2: int, j2: int|
            i <= i2 < j2 < rs.len() ==> (#[trigger] rs[i2]).var != (#[trigger] rs[j2]).var,
    decreases rs.len() - i,
{
    if i < 0 || i >= rs.len() {
    } else {
        lemma_first_partner_none(rs, i, i + 1);
        lemma_first_dup_from_none(rs, i + 1);
    }
}

/// The scan for a duplicate pair succeeds exactly when two rules share a
/// left-hand side.
pub proof fn lemma_first_dup_none(rs: Seq<RuleExpr>)
    ensures
        first_dup(rs) is None <==> no_shared_lhs(rs),
{
    lemma_first_dup_from_none(rs, 0);
}

// ---------------------------------------------------------------------------
// Accumulate
// ---------------------------------------------------------------------------

/// Find the first two rules constraining one variable and replace the
/// second by the rules derived from comparing the two right-hand sides;
/// incompatible shapes are a contradiction in the constraints.
pub fn accumulate_constraints(rules: &mut Vec<RuleExpr>, counter: usize) -> (r: Result<
    Option<ResultAccumulateStep>,
    SolverError,
>)
    ensures
        match r {
            Ok(None) => final(rules)@ == old(rules)@ && first_dup(old(rules)@) is None,
            Ok(Some(step)) => {
                let rs = old(rules)@;
                &&& first_dup(rs) matches Some((i, j))
                    && compare_spec(rs[i], rs[j]) matches Some(added)
                    && final(rules)@ == rs.update(j, rs.last()).drop_last() + added
                    && step.rules_added@ == added
                    && step.rules_compared.0 == rs[i]
                    && step.rules_compared.1 == rs[j]
                &&& step.id == counter
                &&& step.rules_before@ == rs
                &&& step.rules_after@ == final(rules)@
                &&& accumulate_step_valid(step)
            },
            Err(e) => {
                let rs = old(rules)@;
                &&& final(rules)@ == rs
                &&& first_dup(rs) matches Some((i, j))
                    && compare_spec(rs[i], rs[j]) is None
                    && e == SolverError::IncompatibleConstraint(rs[i], rs[j])
            },
        },
{
    let ghost rs = rules@;
    let n = rules.len();
    let mut i: usize = 0;
    while i < n
        invariant
            rules@ == rs,
            rs == old(rules)@,
            n == rs.len(),
            i <= n,
            first_dup(rs) == first_dup_from(rs, i as int),
        decreases n - i,
    {
        let mut j: usize = i + 1;
        while j < n
            invariant
                rules@ == rs,
                rs == old(rules)@,
                n == rs.len(),
                i < n,
                i < j <= n,
                first_dup(rs) == first_dup_from(rs, i as int),
                first_partner(rs, i as int, i as int + 1) == first_partner(rs, i as int, j as int),
            decreases n - j,
        {
            if rules[i].has_same_lhs(&rules[j]) {
                proof {
                    assert(first_partner(rs, i as int, j as int) == Some(j as int));
                    assert(first_dup_from(rs, i as int) == Some((i as int, j as int)));
                    assert(first_dup(rs) == Some((i as int, j as int)));
                }
                let rules_before = clone_rules(rules);
                let rule_i = rules[i].clone();
                let rule_j = rules[j].clone();
                match rules[i].compare_rules(&rules[j]) {
                    Some(new_rules) => {
                        let rules_added = clone_rules(&new_rules);
                        let mut tail = new_rules;
                        rules.swap_remove(j);
                        rules.append(&mut tail);
                        let rules_after = clone_rules(rules);
                        return Ok(Some(ResultAccumulateStep {
                            id: counter,
                            rules_before,
                            rules_after,
                            rules_added,
                            rules_compared: (rule_i, rule_j),
                        }));
                    },
                    None => {
                        return Err(SolverError::IncompatibleConstraint(rule_i, rule_j));
                    },
                }
            }
            j += 1;
        }
        i += 1;
    }
    Ok(None)
}

// ---------------------------------------------------------------------------
// Remove
// ---------------------------------------------------------------------------

/// The rule set that eliminating the trivial rule at index `i` leaves
/// behind: the rule is removed, and the larger of its two variable ids is
/// replaced by the smaller one in every remaining rule.
pub open spec fn remove_result(rs: Seq<RuleExpr>, i: int) -> Seq<RuleExpr> {
    match rs[i].rhs {
        TypeExpr::Var(y) => {
            let from = if rs[i].var >= y { rs[i].var } else { y };
            let to = if rs[i].var >= y { y } else { rs[i].var };
            rs.update(i, rs.last()).drop_last().map_values(
                |ru: RuleExpr| ru.rule_subst(from as int, to),
            )
        },
        _ => rs,
    }
}

/// The record of an accumulate step is consistent: its compared pair is
/// the first duplicate of the set it started from, and the recorded
/// outcome is exactly what comparing that pair yields.
pub open spec fn accumulate_step_valid(st: ResultAccumulateStep) -> bool {
    &&& first_dup(st.rules_before@) matches Some((i, j))
        && compare_spec(st.rules_before@[i], st.rules_before@[j]) matches Some(added)
        && st.rules_after@ == st.rules_before@.update(j, st.rules_before@.last()).drop_last()
        + added
        && st.rules_added@ == added
        && st.rules_compared.0 == st.rules_before@[i]
        && st.rules_compared.1 == st.rules_before@[j]
}

/// The record of a remove step is consistent: it eliminated the first
/// trivial rule of the set it started from, replacing the larger id by
/// the smaller one everywhere.
pub open spec fn remove_step_valid(st: ResultRemoveStep) -> bool {
    &&& first_simple(st.rules_before@, 0) matches Some(i)
        && st.rules_before@[i].rhs matches TypeExpr::Var(y)
        && st.rules_before@[i].var != y
        && st.rules_after@ == remove_result(st.rules_before@, i)
        && st.rules_removed@ == seq![st.rules_before@[i]]
}

/// The record of a substitute step is consistent: the rule it used is
/// the one that one inlining step on the goal's right-hand side picks,
/// and the recorded outcome is that step's result.
pub open spec fn substitute_step_valid(st: ResultSubstituteStep) -> bool {
    &&& subst_step_spec(st.rule_goal_before.rhs, st.rules_available@) matches Some((t2, ru))
        && ru == st.rule_used
        && st.rule_goal_after == (RuleExpr { var: st.rule_goal_before.var, rhs: t2 })
}

/// The failure `e` is exhibited by the working rule set `w`: each error
/// comes with a set in the pipeline state that produces exactly it.
pub open spec fn error_evidence(e: SolverError, w: Seq<RuleExpr>, goal: usize) -> bool {
    match e {
        SolverError::IncompatibleConstraint(a, b) => first_dup(w) matches Some((i, j)) && w[i]
            == a && w[j] == b && compare_spec(a, b) is None,
        SolverError::RecursiveDefinition(x) => first_simple(w, 0) matches Some(i) && w[i].var == x
            && w[i].rhs == TypeExpr::Var(x),
        SolverError::CycleDetected => first_dup(w) is None && cyclic(w),
        SolverError::GoalNotFound(v) => v == goal && first_dup(w) is None && !cyclic(w)
            && first_rule_from(w, goal as int, 0) is None,
    }
}

/// Eliminate the first rule of the shape `Var(x) = Var(y)`: a rule with
/// `x == y` is a direct self-reference and fails; otherwise the larger of
/// the two ids is replaced by the smaller one in every remaining rule, so
/// that the goal variable — the numerically smallest by construction — is
/// never substituted away.
pub fn remove_simple_rule(rules: &mut Vec<RuleExpr>, counter: usize) -> (r: Result<
    Option<ResultRemoveStep>,
    SolverError,
>)
    ensures
        match r {
            Ok(None) => final(rules)@ == old(rules)@ && first_simple(old(rules)@, 0) is None,
            Ok(Some(step)) => {
                let rs = old(rules)@;
                &&& first_simple(rs, 0) matches Some(i)
                    && rs[i].rhs matches TypeExpr::Var(y)
                    && rs[i].var != y
                    && final(rules)@ == remove_result(rs, i)
                    && step.rules_removed@ == seq![rs[i]]
                &&& step.id == counter
                &&& step.rules_before@ == rs
                &&& step.rules_after@ == final(rules)@
                &&& remove_step_valid(step)
            },
            Err(e) => {
                let rs = old(rules)@;
                &&& final(rules)@ == rs
                &&& first_simple(rs, 0) matches Some(i)
                    && rs[i].rhs matches TypeExpr::Var(y)
                    && rs[i].var == y
                    && e == SolverError::RecursiveDefinition(y)
            },
        },
{
    let ghost rs = rules@;
    let rules_before = clone_rules(rules);
    let n = rules.len();
    let mut i: usize = 0;
    while i < n
        invariant
            rules@ == rs,
            rs == old(rules)@,
            rules_before@ == rs,
            n == rs.len(),
            i <= n,
            first_simple(rs, 0) == first_simple(rs, i as int),
        decreases n - i,
    {
        if let Some((from0, to0)) = rules[i].is_simple() {
            proof {
                assert(first_simple(rs, i as int) == Some(i as int));
            }
            if from0 == to0 {
                return Err(SolverError::RecursiveDefinition(from0));
            }
            let from: usize = if from0 < to0 { to0 } else { from0 };
            let to: usize = if from0 < to0 { from0 } else { to0 };
            let rule_used = rules[i].clone();
            rules.swap_remove(i);
            let ghost base = rules@;
            let m = rules.len();
            let mut k: usize = 0;
            while k < m
                invariant
                    rs == old(rules)@,
                    rules_before@ == rs,
                    i < rs.len(),
                    first_simple(rs, 0) == Some(i as int),
                    rs[i as int].rhs matches TypeExpr::Var(y) && from0 == rs[i as int].var
                        && to0 == y,
                    from0 != to0,
                    from == (if from0 < to0 { to0 } else { from0 }),
                    to == (if from0 < to0 { from0 } else { to0 }),
                    base == rs.update(i as int, rs.last()).drop_last(),
                    m == base.len(),
                    rules@.len() == m,
                    k <= m,
                    forall|x: int| 0 <= x < k ==> rules@[x] == (#[trigger] base[x]).rule_subst(
                        from as int,
                        to,
                    ),
                    forall|x: int| k <= x < m ==> rules@[x] == base[x],
                decreases m - k,
            {
                let mut ru = rules[k].clone();
                ru.replace_var(from, to);
                rules[k] = ru;
                k += 1;
            }
            proof {
                assert(rules@ =~= base.map_values(
                    |ru: RuleExpr| ru.rule_subst(from as int, to),
                ));
                assert(rules@ =~= remove_result(rs, i as int));
            }
            let rules_after = clone_rules(rules);
            let mut rules_removed: Vec<RuleExpr> = Vec::new();
            rules_removed.push(rule_used);
            proof {
                assert(rules_removed@ =~= seq![rs[i as int]]);
            }
            return Ok(Some(ResultRemoveStep {
                id: counter,
                rules_before,
                rules_after,
                rules_removed,
            }));
        }
        i += 1;
    }
    Ok(None)
}


// ---------------------------------------------------------------------------
// Goal lookup and substitution
// ---------------------------------------------------------------------------

/// The index of the first rule whose left-hand side is `v`, if any.
fn find_rule_index(rules: &Vec<RuleExpr>, v: usize) -> (r: Option<usize>)
    ensures
        match r {
            Some(k) => first_rule_from(rules@, v as int, 0) == Some(k as int) && k < rules@.len()
                && rules@[k as int].var == v,
            None => first_rule_from(rules@, v as int, 0) is None,
        },
{
    let n = rules.len();
    let mut i: usize = 0;
    while i < n
        invariant
            n == rules@.len(),
            i <= n,
            first_rule_from(rules@, v as int, 0) == first_rule_from(rules@, v as int, i as int),
        decreases n - i,
    {
        if rules[i].has_lhs(v) {
            proof {
                assert(first_rule_from(rules@, v as int, i as int) == Some(i as int));
            }
            return Some(i);
        }
        i += 1;
    }
    None
}

/// Find the rule for the goal variable.
pub fn find_goal_rule(rules: &mut Vec<RuleExpr>, goal_var: usize) -> (r: Result<
    RuleExpr,
    SolverError,
>)
    ensures
        final(rules)@ == old(rules)@,
        match r {
            Ok(g) => first_rule_from(old(rules)@, goal_var as int, 0) matches Some(k) && g == old(
                rules,
            )@[k],
            Err(e) => first_rule_from(old(rules)@, goal_var as int, 0) is None && e
                == SolverError::GoalNotFound(goal_var),
        },
{
    match find_rule_index(rules, goal_var) {
        Some(k) => Ok(rules[k].clone()),
        None => Err(SolverError::GoalNotFound(goal_var)),
    }
}

/// One inlining step on the type `t`: the first variable occurrence (depth
/// first, left to right) for which a rule exists is replaced by that rule's
/// right-hand side; the result carries the rule that was used.
pub open spec fn subst_step_spec(t: TypeExpr, rs: Seq<RuleExpr>) -> Option<(TypeExpr, RuleExpr)>
    decreases t,
{
    match t {
        TypeExpr::Var(x) => match first_rule_from(rs, x as int, 0) {
            Some(k) => Some((rs[k].rhs, rs[k])),
            None => None,
        },
        TypeExpr::Int => None,
        TypeExpr::Bool => None,
        TypeExpr::Function(a, b) => match subst_step_spec(*a, rs) {
            Some((a2, ru)) => Some((TypeExpr::Function(Box::new(a2), b), ru)),
            None => match subst_step_spec(*b, rs) {
                Some((b2, ru)) => Some((TypeExpr::Function(a, Box::new(b2)), ru)),
                None => None,
            },
        },
        TypeExpr::Tuple(a, b) => match subst_step_spec(*a, rs) {
            Some((a2, ru)) => Some((TypeExpr::Tuple(Box::new(a2), b), ru)),
            None => match subst_step_spec(*b, rs) {
                Some((b2, ru)) => Some((TypeExpr::Tuple(a, Box::new(b2)), ru)),
                None => None,
            },
        },
    }
}

/// Perform one inlining step on `t`, if any rule applies somewhere in it.
fn substitute_once(t: &TypeExpr, rules: &Vec<RuleExpr>) -> (r: Option<(TypeExpr, RuleExpr)>)
    ensures
        r == subst_step_spec(*t, rules@),
    decreases t,
{
    match t {
        TypeExpr::Var(x) => match find_rule_index(rules, *x) {
            Some(k) => Some((rules[k].rhs.clone(), rules[k].clone())),
            None => None,
        },
        TypeExpr::Int => None,
        TypeExpr::Bool => None,
        TypeExpr::Function(a, b) => match substitute_once(a, rules) {
            Some((a2, ru)) => Some((TypeExpr::Function(Box::new(a2), Box::new((**b).clone())), ru)),
            None => match substitute_once(b, rules) {
                Some((b2, ru)) => Some(
                    (TypeExpr::Function(Box::new((**a).clone()), Box::new(b2)), ru),
                ),
                None => None,
            },
        },
        TypeExpr::Tuple(a, b) => match substitute_once(a, rules) {
            Some((a2, ru)) => Some((TypeExpr::Tuple(Box::new(a2), Box::new((**b).clone())), ru)),
            None => match substitute_once(b, rules) {
                Some((b2, ru)) => Some((TypeExpr::Tuple(Box::new((**a).clone()), Box::new(b2)), ru)),
                None => None,
            },
        },
    }
}

impl RuleExpr {
    /// Inline one applicable rule into this rule's right-hand side; the
    /// rule used is returned, or `None` when no rule applies.
    pub fn substitute_constraint(&mut self, rules: &Vec<RuleExpr>) -> (r: Option<RuleExpr>)
        ensures
            match subst_step_spec(old(self).rhs, rules@) {
                Some((t2, ru)) => *final(self) == (RuleExpr { var: old(self).var, rhs: t2 }) && r
                    == Some(ru),
                None => *final(self) == *old(self) && r is None,
            },
    {
        match substitute_once(&self.rhs, rules) {
            Some((t2, ru)) => {
                self.rhs = t2;
                Some(ru)
            },
            None => None,
        }
    }
}

/// One substitute phase step: inline one rule into the goal rule,
/// recording the rule sets and the goal rule before and after.
pub fn substitute_constraints(
    rules: &mut Vec<RuleExpr>,
    goal_rule: &mut RuleExpr,
    goal_var: usize,
    counter: usize,
) -> (r: Result<Option<ResultSubstituteStep>, SolverError>)
    ensures
        final(rules)@ == old(rules)@,
        match r {
            Ok(opt) => match opt {
                Some(step) => {
                    &&& subst_step_spec(old(goal_rule).rhs, old(rules)@) matches Some((t2, ru))
                        && *final(goal_rule) == (RuleExpr { var: old(goal_rule).var, rhs: t2 })
                        && step.rule_used == ru
                    &&& step.id == counter
                    &&& step.goal_id == goal_var
                    &&& step.rules_available@ == old(rules)@
                    &&& step.rule_goal_before == *old(goal_rule)
                    &&& step.rule_goal_after == *final(goal_rule)
                    &&& substitute_step_valid(step)
                },
                None => subst_step_spec(old(goal_rule).rhs, old(rules)@) is None
                    && *final(goal_rule) == *old(goal_rule),
            },
            Err(_) => false,
        },
{
    let rule_goal_before = goal_rule.clone();
    let rules_available = clone_rules(rules);
    match goal_rule.substitute_constraint(rules) {
        Some(ru) => Ok(Some(ResultSubstituteStep {
            id: counter,
            goal_id: goal_var,
            rules_available,
            rule_goal_before,
            rule_goal_after: goal_rule.clone(),
            rule_used: ru,
        })),
        None => Ok(None),
    }
}

// ---------------------------------------------------------------------------
// The variables touched by a rule set
// ---------------------------------------------------------------------------

/// Is `v` among the ids of the sequence?
pub open spec fn mem_id(s: Seq<usize>, v: int) -> bool {
    exists|k: int| 0 <= k < s.len() && (#[trigger] s[k]) as int == v
}

/// The ids are strictly increasing.
pub open spec fn sorted_ids(s: Seq<usize>) -> bool {
    forall|i: int, j: int| 0 <= i < j < s.len() ==> #[trigger] s[i] < #[trigger] s[j]
}

/// Does `v` occur in the rules, on either side?
pub open spec fn rules_has_var(rs: Seq<RuleExpr>, v: int) -> bool {
    exists|k: int| 0 <= k < rs.len() && ((#[trigger] rs[k]).var as int == v || rs[k].rhs.has_var(v))
}

/// Insert an id into a strictly sorted list, keeping it sorted and
/// without duplicates.
fn insert_var(out: &mut Vec<usize>, v: usize)
    requires
        sorted_ids(old(out)@),
    ensures
        sorted_ids(final(out)@),
        forall|w: int|
            #![trigger mem_id(final(out)@, w)]
            mem_id(final(out)@, w) <==> mem_id(old(out)@, w) || w == v as int,
{
    let n = out.len();
    let mut i: usize = 0;
    while i < n && out[i] < v
        invariant
            sorted_ids(out@),
            out@ == old(out)@,
            n == out@.len(),
            i <= n,
            forall|k: int| 0 <= k < i ==> (#[trigger] out@[k]) < v,
        decreases n - i,
    {
        i += 1;
    }
    if i < n && out[i] == v {
        proof {
            assert(mem_id(out@, v as int));
        }
        return ;
    }
    out.insert(i, v);
    proof {
        let s0 = old(out)@;
        let s1 = out@;
        assert(s1 == s0.insert(i as int, v));
        assert forall|p: int, q: int| 0 <= p < q < s1.len() implies #[trigger] s1[p]
            < #[trigger] s1[q] by {
            if p < i && q < i {
            } else if p < i && q == i {
            } else if p < i && q > i {
                assert(s1[p] == s0[p] && s1[q] == s0[q - 1]);
            } else if p == i && q > i {
                assert(s1[q] == s0[q - 1] && s0[q - 1] >= v && s0[q - 1] != v);
            } else if p > i {
                assert(s1[p] == s0[p - 1] && s1[q] == s0[q - 1]);
            }
        }
        assert forall|w: int| mem_id(s1, w) <==> mem_id(s0, w) || w == v as int by {
            if mem_id(s1, w) {
                let k = choose|k: int| 0 <= k < s1.len() && (#[trigger] s1[k]) as int == w;
                if k < i {
                    assert(s0[k] as int == w);
                } else if k == i {
                } else {
                    assert(s0[k - 1] as int == w);
                }
            }
            if mem_id(s0, w) {
                let k = choose|k: int| 0 <= k < s0.len() && (#[trigger] s0[k]) as int == w;
                if k < i {
                    assert(s1[k] as int == w);
                } else {
                    assert(s1[k + 1] as int == w);
                }
            }
            if w == v as int {
                assert(s1[i as int] as int == w);
            }
        }
    }
}

/// Insert every variable of the type into a strictly sorted list.
fn collect_type_vars(out: &mut Vec<usize>, t: &TypeExpr)
    requires
        sorted_ids(old(out)@),
    ensures
        sorted_ids(final(out)@),
        forall|w: int|
            #![trigger mem_id(final(out)@, w)]
            mem_id(final(out)@, w) <==> mem_id(old(out)@, w) || t.has_var(w),
    decreases t,
{
    match t {
        TypeExpr::Var(x) => insert_var(out, *x),
        TypeExpr::Int => (),
        TypeExpr::Bool => (),
        TypeExpr::Function(a, b) => {
            collect_type_vars(out, a);
            let ghost mid = out@;
            collect_type_vars(out, b);
            proof {
                assert forall|w: int| mem_id(out@, w) <==> mem_id(old(out)@, w) || t.has_var(
                    w,
                ) by {
                    assert(mem_id(out@, w) <==> mem_id(mid, w) || b.has_var(w));
                    assert(mem_id(mid, w) <==> mem_id(old(out)@, w) || a.has_var(w));
                }
            }
        },
        TypeExpr::Tuple(a, b) => {
            collect_type_vars(out, a);
            let ghost mid = out@;
            collect_type_vars(out, b);
            proof {
                assert forall|w: int| mem_id(out@, w) <==> mem_id(old(out)@, w) || t.has_var(
                    w,
                ) by {
                    assert(mem_id(out@, w) <==> mem_id(mid, w) || b.has_var(w));
                    assert(mem_id(mid, w) <==> mem_id(old(out)@, w) || a.has_var(w));
                }
            }
        },
    }
}

/// All variable ids touched by the rules, in strictly increasing order.
pub fn variables(rules: Vec<RuleExpr>) -> (r: Vec<usize>)
    ensures
        sorted_ids(r@),
        forall|v: int| #![trigger mem_id(r@, v)] mem_id(r@, v) <==> rules_has_var(rules@, v),
{
    let mut out: Vec<usize> = Vec::new();
    let n = rules.len();
    for i in 0..n
        invariant
            n == rules@.len(),
            sorted_ids(out@),
            forall|v: int| mem_id(out@, v) <==> rules_has_var(rules@.take(i as int), v),
        decreases n - i,
    {
        let ghost pre = out@;
        insert_var(&mut out, rules[i].var);
        let ghost mid = out@;
        collect_type_vars(&mut out, &rules[i].rhs);
        proof {
            let t = rules@.take(i + 1);
            assert forall|v: int| mem_id(out@, v) <==> rules_has_var(t, v) by {
                assert(mem_id(out@, v) <==> mem_id(mid, v) || rules@[i as int].rhs.has_var(v));
                assert(mem_id(mid, v) <==> mem_id(pre, v) || v == rules@[i as int].var as int);
                assert(t.drop_last() =~= rules@.take(i as int));
                assert(t.last() == rules@[i as int]);
                if mem_id(out@, v) {
                    if rules_has_var(rules@.take(i as int), v) {
                        let k = choose|k: int|
                            0 <= k < rules@.take(i as int).len() && ((#[trigger] rules@.take(
                                i as int,
                            )[k]).var as int == v || rules@.take(i as int)[k].rhs.has_var(v));
                        assert(t[k] == rules@.take(i as int)[k]);
                        assert(rules_has_var(t, v));
                    } else {
                        assert(t[i as int] == rules@[i as int]);
                        assert(rules_has_var(t, v));
                    }
                }
                if rules_has_var(t, v) {
                    let k = choose|k: int|
                        0 <= k < t.len() && ((#[trigger] t[k]).var as int == v
                            || t[k].rhs.has_var(v));
                    if k < i {
                        assert(rules@.take(i as int)[k] == t[k]);
                        assert(rules_has_var(rules@.take(i as int), v));
                    } else {
                        assert(t[k] == rules@[i as int]);
                    }
                }
            }
        }
    }
    proof {
        assert(rules@.take(n as int) =~= rules@);
    }
    out
}


// ---------------------------------------------------------------------------
// Cycle check
// ---------------------------------------------------------------------------

/// Is `v` the left-hand side of some rule?
pub open spec fn is_lhs(rs: Seq<RuleExpr>, v: int) -> bool {
    exists|k: int| 0 <= k < rs.len() && (#[trigger] rs[k]).var as int == v
}

/// Does the right-hand side `t` mention some member of `s`?
pub open spec fn rhs_hits(t: TypeExpr, s: Set<int>) -> bool {
    exists|w: int| #[trigger] s.contains(w) && t.has_var(w)
}

/// Variable `v` is constrained by a rule whose right-hand side mentions a
/// member of `s`.
pub open spec fn feeds_cycle(rs: Seq<RuleExpr>, s: Set<int>, v: int) -> bool {
    exists|k: int|
        0 <= k < rs.len() && (#[trigger] rs[k]).var as int == v && rhs_hits(rs[k].rhs, s)
}

/// `s` witnesses a cycle: it is nonempty, and every member is constrained
/// by a rule whose right-hand side mentions another member.
pub open spec fn cycle_witness(rs: Seq<RuleExpr>, s: Set<int>) -> bool {
    &&& exists|v: int| #[trigger] s.contains(v)
    &&& forall|v: int| s.contains(v) ==> #[trigger] feeds_cycle(rs, s, v)
}

/// The variable dependencies of the rules contain a cycle, so the rules
/// describe an infinite type.
pub open spec fn cyclic(rs: Seq<RuleExpr>) -> bool {
    exists|s: Set<int>| #[trigger] cycle_witness(rs, s)
}

/// The right-hand side of rule `i` depends on some constrained variable.
pub open spec fn blocked(rs: Seq<RuleExpr>, i: int) -> bool {
    exists|k: int| 0 <= k < rs.len() && rs[i].rhs.has_var(((#[trigger] rs[k]).var) as int)
}

/// Element `x` of `sub` occurs somewhere in `sup`.
pub open spec fn has_match(sub: Seq<RuleExpr>, sup: Seq<RuleExpr>, x: int) -> bool {
    exists|k: int| 0 <= k < sup.len() && sub[x] == #[trigger] sup[k]
}

/// Every element of `sub` occurs in `sup`.
pub open spec fn rules_among(sub: Seq<RuleExpr>, sup: Seq<RuleExpr>) -> bool {
    forall|x: int| 0 <= x < sub.len() ==> #[trigger] has_match(sub, sup, x)
}

/// An empty rule set has no cycle.
proof fn lemma_empty_not_cyclic(rs: Seq<RuleExpr>)
    requires
        rs.len() == 0,
    ensures
        !cyclic(rs),
{
    if cyclic(rs) {
        let s = choose|s: Set<int>| cycle_witness(rs, s);
        let v = choose|v: int| s.contains(v);
        assert(feeds_cycle(rs, s, v));
        let k = choose|k: int|
            0 <= k < rs.len() && (#[trigger] rs[k]).var as int == v && rhs_hits(rs[k].rhs, s);
        assert(false);
    }
}

/// A cycle among some of the rules is a cycle among all of them.
proof fn lemma_among_cyclic(sub: Seq<RuleExpr>, sup: Seq<RuleExpr>)
    requires
        rules_among(sub, sup),
        cyclic(sub),
    ensures
        cyclic(sup),
{
    let s = choose|s: Set<int>| cycle_witness(sub, s);
    assert forall|v: int| #[trigger] s.contains(v) implies feeds_cycle(sup, s, v) by {
        assert(feeds_cycle(sub, s, v));
        let k = choose|k: int|
            0 <= k < sub.len() && (#[trigger] sub[k]).var as int == v && rhs_hits(sub[k].rhs, s);
        assert(has_match(sub, sup, k));
        let k2 = choose|k2: int| 0 <= k2 < sup.len() && sub[k] == #[trigger] sup[k2];
        assert(sup[k2].var as int == v && rhs_hits(sup[k2].rhs, s));
    }
    assert(cycle_witness(sup, s));
}

/// Removing a rule whose right-hand side depends on no constrained
/// variable keeps every cycle intact.
proof fn lemma_removal_keeps_cycle(rs: Seq<RuleExpr>, i: int)
    requires
        0 <= i < rs.len(),
        forall|k: int| 0 <= k < rs.len() ==> !rs[i].rhs.has_var(((#[trigger] rs[k]).var) as int),
        cyclic(rs),
    ensures
        cyclic(rs.update(i, rs.last()).drop_last()),
{
    let s = choose|s: Set<int>| cycle_witness(rs, s);
    let rs2 = rs.update(i, rs.last()).drop_last();
    assert forall|v: int| #[trigger] s.contains(v) implies feeds_cycle(rs2, s, v) by {
        assert(feeds_cycle(rs, s, v));
        let k = choose|k: int|
            0 <= k < rs.len() && (#[trigger] rs[k]).var as int == v && rhs_hits(rs[k].rhs, s);
        if k == i {
            let w = choose|w: int| #[trigger] s.contains(w) && rs[i].rhs.has_var(w);
            assert(feeds_cycle(rs, s, w));
            let k2 = choose|k2: int|
                0 <= k2 < rs.len() && (#[trigger] rs[k2]).var as int == w && rhs_hits(
                    rs[k2].rhs,
                    s,
                );
            assert(!rs[i].rhs.has_var(rs[k2].var as int));
            assert(false);
        }
        if k == rs.len() - 1 {
            assert(rs2[i] == rs[k]);
        } else {
            assert(rs2[k] == rs[k]);
        }
    }
    assert(cycle_witness(rs2, s));
}

/// A rule set in which every rule depends on a constrained variable is
/// cyclic.
proof fn lemma_stuck_cyclic(rs: Seq<RuleExpr>)
    requires
        rs.len() > 0,
        forall|x: int| 0 <= x < rs.len() ==> blocked(rs, x),
    ensures
        cyclic(rs),
{
    let s = Set::new(|v: int| is_lhs(rs, v));
    assert(s.contains(rs[0].var as int));
    assert forall|v: int| #[trigger] s.contains(v) implies feeds_cycle(rs, s, v) by {
        let k = choose|k: int| 0 <= k < rs.len() && (#[trigger] rs[k]).var as int == v;
        assert(blocked(rs, k));
        let k2 = choose|k2: int|
            0 <= k2 < rs.len() && rs[k].rhs.has_var(((#[trigger] rs[k2]).var) as int);
        assert(s.contains(rs[k2].var as int));
        assert(rhs_hits(rs[k].rhs, s));
    }
    assert(cycle_witness(rs, s));
}

/// The index of a rule whose right-hand side depends on no constrained
/// variable, if one exists.
fn find_removable(rs: &Vec<RuleExpr>) -> (r: Option<usize>)
    ensures
        match r {
            Some(i) => i < rs@.len() && forall|k: int|
                0 <= k < rs@.len() ==> !rs@[i as int].rhs.has_var(((#[trigger] rs@[k]).var) as int),
            None => forall|x: int| 0 <= x < rs@.len() ==> blocked(rs@, x),
        },
{
    let n = rs.len();
    let mut i: usize = 0;
    while i < n
        invariant
            i <= n,
            n == rs@.len(),
            forall|x: int| 0 <= x < i ==> blocked(rs@, x),
        decreases n - i,
    {
        let mut k: usize = 0;
        let mut hit: bool = false;
        while k < n && !hit
            invariant
                k <= n,
                n == rs@.len(),
                i < n,
                hit ==> blocked(rs@, i as int),
                !hit ==> forall|y: int|
                    0 <= y < k ==> !rs@[i as int].rhs.has_var(((#[trigger] rs@[y]).var) as int),
            decreases n - k + (if hit { 0int } else { 1int }),
        {
            if rs[i].rhs.contains_var(rs[k].var) {
                hit = true;
            } else {
                k += 1;
            }
        }
        if !hit {
            return Some(i);
        }
        i += 1;
    }
    None
}

/// Check the rules for an infinite type: repeatedly discard rules whose
/// right-hand side depends on no constrained variable; what cannot be
/// discarded this way is exactly a cycle among the type variables.
pub fn check_cycles(rules: &Vec<RuleExpr>) -> (r: Result<(), SolverError>)
    ensures
        r is Ok <==> !cyclic(rules@),
        r matches Err(e) ==> e == SolverError::CycleDetected,
{
    let mut remaining = clone_rules(rules);
    proof {
        assert forall|x: int| 0 <= x < remaining@.len() implies #[trigger] has_match(
            remaining@,
            rules@,
            x,
        ) by {
            assert(remaining@[x] == rules@[x]);
        }
    }
    let mut stop = false;
    while !stop
        invariant
            rules_among(remaining@, rules@),
            cyclic(rules@) ==> cyclic(remaining@),
            stop ==> forall|x: int| 0 <= x < remaining@.len() ==> blocked(remaining@, x),
        decreases remaining@.len() + (if stop { 0int } else { 1int }),
    {
        let ghost before = remaining@;
        match find_removable(&remaining) {
            Some(i) => {
                remaining.swap_remove(i);
                proof {
                    if cyclic(rules@) {
                        lemma_removal_keeps_cycle(before, i as int);
                    }
                    assert forall|x: int| 0 <= x < remaining@.len() implies #[trigger] has_match(
                        remaining@,
                        rules@,
                        x,
                    ) by {
                        let y: int = if x == i as int { before.len() - 1 } else { x };
                        assert(remaining@[x] == before[y]);
                        assert(has_match(before, rules@, y));
                        let k = choose|k: int| 0 <= k < rules@.len() && before[y] == #[trigger] rules@[k];
                        assert(remaining@[x] == rules@[k]);
                    }
                }
            },
            None => {
                stop = true;
            },
        }
    }
    if remaining.len() == 0 {
        proof {
            lemma_empty_not_cyclic(remaining@);
        }
        Ok(())
    } else {
        proof {
            lemma_stuck_cyclic(remaining@);
            lemma_among_cyclic(remaining@, rules@);
        }
        Err(SolverError::CycleDetected)
    }
}


// ---------------------------------------------------------------------------
// The solver
// ---------------------------------------------------------------------------

/// The outcome of one solve call: the rules and variables it started
/// from, the ordered logs of the three step kinds, and the resolved goal
/// rule or the error that stopped the run.
#[derive(Debug)]
pub struct Solution {
    pub rules: Vec<RuleExpr>,
    pub variables: Vec<usize>,
    pub result_remove_steps: Vec<ResultRemoveStep>,
    pub result_accumulate_steps: Vec<ResultAccumulateStep>,
    pub result_substitute_steps: Vec<ResultSubstituteStep>,
    pub result: Option<Result<RuleExpr, SolverError>>,
}

/// One recorded step of any kind, in the shared order of step ids.
pub enum SolverStep {
    Remove(ResultRemoveStep),
    Accumulate(ResultAccumulateStep),
    Substitute(ResultSubstituteStep),
}

/// A recorded step of any kind is consistent with what it records.
spec fn step_valid(s: SolverStep) -> bool {
    match s {
        SolverStep::Remove(st) => remove_step_valid(st),
        SolverStep::Accumulate(st) => accumulate_step_valid(st),
        SolverStep::Substitute(st) => substitute_step_valid(st),
    }
}

/// The shared order id of a step.
spec fn step_id(s: SolverStep) -> int {
    match s {
        SolverStep::Remove(st) => st.id as int,
        SolverStep::Accumulate(st) => st.id as int,
        SolverStep::Substitute(st) => st.id as int,
    }
}

// ---------------------------------------------------------------------------
// The whole run, replayed from the trace
// ---------------------------------------------------------------------------

/// The substitute phase, replayed from cursor `k` of the trace: while a
/// rule can be inlined into the goal rule `g`, the next recorded step is
/// exactly that inlining; when none applies the trace ends and the goal
/// rule is the answer.
pub open spec fn replays_substitute(
    w: Seq<RuleExpr>,
    g: RuleExpr,
    tr: Seq<SolverStep>,
    k: int,
    goal: usize,
    result: Option<Result<RuleExpr, SolverError>>,
) -> bool
    decreases tr.len() - k,
{
    match subst_step_spec(g.rhs, w) {
        None => k == tr.len() && result == Some(Result::<RuleExpr, SolverError>::Ok(g)),
        Some((t2, ru)) => if k < 0 || k >= tr.len() {
            false
        } else {
            &&& tr[k] matches SolverStep::Substitute(st)
                && st.id as int == k
                && st.goal_id == goal
                && st.rules_available@ == w
                && st.rule_goal_before == g
                && st.rule_used == ru
                && st.rule_goal_after == (RuleExpr { var: g.var, rhs: t2 })
            &&& replays_substitute(w, RuleExpr { var: g.var, rhs: t2 }, tr, k + 1, goal, result)
        },
    }
}

/// The cycle check and the goal lookup, replayed: past the
/// simplification fixpoint `w`, a cyclic set or a missing goal rule ends
/// the run, and otherwise the goal's rule enters the substitute phase.
pub open spec fn replays_finish(
    w: Seq<RuleExpr>,
    tr: Seq<SolverStep>,
    k: int,
    goal: usize,
    result: Option<Result<RuleExpr, SolverError>>,
) -> bool {
    if cyclic(w) {
        k == tr.len() && result == Some(
            Result::<RuleExpr, SolverError>::Err(SolverError::CycleDetected),
        )
    } else {
        match first_rule_from(w, goal as int, 0) {
            None => k == tr.len() && result == Some(
                Result::<RuleExpr, SolverError>::Err(SolverError::GoalNotFound(goal)),
            ),
            Some(gi) => replays_substitute(w, w[gi], tr, k, goal, result),
        }
    }
}

/// The accumulate/remove loop, replayed from cursor `k` on working set
/// `w`: while two rules share a left-hand side, the next recorded step
/// compares the first such pair (an incompatible pair ends the run);
/// after each accumulate step, a remove step follows exactly when a
/// trivial rule exists (a self-referring one ends the run). When no pair
/// shares a left-hand side, the run continues into the cycle check.
pub open spec fn replays_simplify(
    w: Seq<RuleExpr>,
    tr: Seq<SolverStep>,
    k: int,
    goal: usize,
    result: Option<Result<RuleExpr, SolverError>>,
) -> bool
    decreases tr.len() - k,
{
    match first_dup(w) {
        None => replays_finish(w, tr, k, goal, result),
        Some((i, j)) => match compare_spec(w[i], w[j]) {
            None => k == tr.len() && result == Some(
                Result::<RuleExpr, SolverError>::Err(
                    SolverError::IncompatibleConstraint(w[i], w[j]),
                ),
            ),
            Some(added) => if k < 0 || k >= tr.len() {
                false
            } else {
                let wa = w.update(j, w.last()).drop_last() + added;
                &&& tr[k] matches SolverStep::Accumulate(st)
                    && st.id as int == k
                    && st.rules_before@ == w
                    && st.rules_after@ == wa
                    && st.rules_added@ == added
                    && st.rules_compared.0 == w[i]
                    && st.rules_compared.1 == w[j]
                &&& match first_simple(wa, 0) {
                    None => replays_simplify(wa, tr, k + 1, goal, result),
                    Some(i2) => match wa[i2].rhs {
                        TypeExpr::Var(y) => if wa[i2].var == y {
                            k + 1 == tr.len() && result == Some(
                                Result::<RuleExpr, SolverError>::Err(
                                    SolverError::RecursiveDefinition(y),
                                ),
                            )
                        } else {
                            if k + 1 >= tr.len() {
                                false
                            } else {
                                &&& tr[k + 1] matches SolverStep::Remove(st2)
                                    && st2.id as int == k + 1
                                    && st2.rules_before@ == wa
                                    && st2.rules_after@ == remove_result(wa, i2)
                                    && st2.rules_removed@ == seq![wa[i2]]
                                &&& replays_simplify(remove_result(wa, i2), tr, k + 2, goal, result)
                            }
                        },
                        _ => false,
                    },
                }
            },
        },
    }
}

/// The trace `tr` together with `result` is exactly the run of the
/// solver on the rule set `rs0` for `goal`: every step follows from the
/// state the previous steps left behind, and the result is what the run
/// ends in. For fixed `rs0` and `goal` this determines the trace and the
/// result completely.
pub open spec fn replays(
    rs0: Seq<RuleExpr>,
    goal: usize,
    tr: Seq<SolverStep>,
    result: Option<Result<RuleExpr, SolverError>>,
) -> bool {
    replays_simplify(rs0, tr, 0, goal, result)
}

/// The remove steps of the trace, in order.
pub open spec fn remove_log(tr: Seq<SolverStep>) -> Seq<ResultRemoveStep>
    decreases tr.len(),
{
    if tr.len() == 0 {
        Seq::empty()
    } else {
        match tr[0] {
            SolverStep::Remove(st) => seq![st] + remove_log(tr.skip(1)),
            _ => remove_log(tr.skip(1)),
        }
    }
}

/// The accumulate steps of the trace, in order.
pub open spec fn accumulate_log(tr: Seq<SolverStep>) -> Seq<ResultAccumulateStep>
    decreases tr.len(),
{
    if tr.len() == 0 {
        Seq::empty()
    } else {
        match tr[0] {
            SolverStep::Accumulate(st) => seq![st] + accumulate_log(tr.skip(1)),
            _ => accumulate_log(tr.skip(1)),
        }
    }
}

/// The substitute steps of the trace, in order.
pub open spec fn substitute_log(tr: Seq<SolverStep>) -> Seq<ResultSubstituteStep>
    decreases tr.len(),
{
    if tr.len() == 0 {
        Seq::empty()
    } else {
        match tr[0] {
            SolverStep::Substitute(st) => seq![st] + substitute_log(tr.skip(1)),
            _ => substitute_log(tr.skip(1)),
        }
    }
}

/// The ids of the remove log are strictly increasing and below `total`.
pub open spec fn remove_ids_ok(s: Seq<ResultRemoveStep>, total: int) -> bool {
    &&& forall|a: int, b: int| 0 <= a < b < s.len() ==> (#[trigger] s[a]).id < (#[trigger] s[b]).id
    &&& forall|a: int| 0 <= a < s.len() ==> (#[trigger] s[a]).id < total
}

/// The ids of the accumulate log are strictly increasing and below
/// `total`.
pub open spec fn accumulate_ids_ok(s: Seq<ResultAccumulateStep>, total: int) -> bool {
    &&& forall|a: int, b: int| 0 <= a < b < s.len() ==> (#[trigger] s[a]).id < (#[trigger] s[b]).id
    &&& forall|a: int| 0 <= a < s.len() ==> (#[trigger] s[a]).id < total
}

/// The ids of the substitute log are strictly increasing and below
/// `total`.
pub open spec fn substitute_ids_ok(s: Seq<ResultSubstituteStep>, total: int) -> bool {
    &&& forall|a: int, b: int| 0 <= a < b < s.len() ==> (#[trigger] s[a]).id < (#[trigger] s[b]).id
    &&& forall|a: int| 0 <= a < s.len() ==> (#[trigger] s[a]).id < total
}

/// Split the shared step log into the three per-kind logs, keeping the
/// shared order: the results are exactly the per-kind projections of the
/// trace.
fn split_steps(steps: Vec<SolverStep>) -> (r: (
    Vec<ResultRemoveStep>,
    Vec<ResultAccumulateStep>,
    Vec<ResultSubstituteStep>,
))
    requires
        forall|x: int| 0 <= x < steps@.len() ==> step_id(#[trigger] steps@[x]) == x,
        forall|x: int| 0 <= x < steps@.len() ==> step_valid(#[trigger] steps@[x]),
    ensures
        r.0@ == remove_log(steps@),
        r.1@ == accumulate_log(steps@),
        r.2@ == substitute_log(steps@),
        r.0@.len() + r.1@.len() + r.2@.len() == steps@.len(),
        remove_ids_ok(r.0@, steps@.len() as int),
        accumulate_ids_ok(r.1@, steps@.len() as int),
        substitute_ids_ok(r.2@, steps@.len() as int),
        forall|a: int| 0 <= a < r.0@.len() ==> remove_step_valid(#[trigger] r.0@[a]),
        forall|a: int| 0 <= a < r.1@.len() ==> accumulate_step_valid(#[trigger] r.1@[a]),
        forall|a: int| 0 <= a < r.2@.len() ==> substitute_step_valid(#[trigger] r.2@[a]),
{
    let ghost orig = steps@;
    let n_init = steps.len();
    proof {
        assert(orig.len() == n_init as int);
    }
    let mut steps = steps;
    let mut rem: Vec<ResultRemoveStep> = Vec::new();
    let mut acc: Vec<ResultAccumulateStep> = Vec::new();
    let mut sub: Vec<ResultSubstituteStep> = Vec::new();
    let mut consumed: usize = 0;
    while steps.len() > 0
        invariant
            orig.len() == n_init as int,
            consumed + steps@.len() == orig.len(),
            steps@ == orig.skip(consumed as int),
            forall|x: int| 0 <= x < orig.len() ==> step_id(#[trigger] orig[x]) == x,
            forall|x: int| 0 <= x < orig.len() ==> step_valid(#[trigger] orig[x]),
            rem@ + remove_log(steps@) == remove_log(orig),
            acc@ + accumulate_log(steps@) == accumulate_log(orig),
            sub@ + substitute_log(steps@) == substitute_log(orig),
            rem@.len() + acc@.len() + sub@.len() == consumed,
            forall|a: int| 0 <= a < rem@.len() ==> (#[trigger] rem@[a]).id < consumed,
            forall|a: int| 0 <= a < acc@.len() ==> (#[trigger] acc@[a]).id < consumed,
            forall|a: int| 0 <= a < sub@.len() ==> (#[trigger] sub@[a]).id < consumed,
            forall|a: int, b: int| 0 <= a < b < rem@.len() ==> (#[trigger] rem@[a]).id
                < (#[trigger] rem@[b]).id,
            forall|a: int, b: int| 0 <= a < b < acc@.len() ==> (#[trigger] acc@[a]).id
                < (#[trigger] acc@[b]).id,
            forall|a: int, b: int| 0 <= a < b < sub@.len() ==> (#[trigger] sub@[a]).id
                < (#[trigger] sub@[b]).id,
            forall|a: int| 0 <= a < rem@.len() ==> remove_step_valid(#[trigger] rem@[a]),
            forall|a: int| 0 <= a < acc@.len() ==> accumulate_step_valid(#[trigger] acc@[a]),
            forall|a: int| 0 <= a < sub@.len() ==> substitute_step_valid(#[trigger] sub@[a]),
        decreases steps@.len(),
    {
        let ghost pre = steps@;
        let st = steps.remove(0);
        proof {
            assert(pre[0] == orig[consumed as int]);
            assert(steps@ =~= pre.skip(1));
            assert(steps@ =~= orig.skip(consumed as int + 1));
        }
        match st {
            SolverStep::Remove(st2) => rem.push(st2),
            SolverStep::Accumulate(st2) => acc.push(st2),
            SolverStep::Substitute(st2) => sub.push(st2),
        }
        consumed = consumed + 1;
    }
    proof {
        assert(steps@ =~= Seq::<SolverStep>::empty());
        assert(rem@ =~= remove_log(orig));
        assert(acc@ =~= accumulate_log(orig));
        assert(sub@ =~= substitute_log(orig));
    }
    (rem, acc, sub)
}

/// Where a scan from `i` finds the rule for `v`, that rule indeed
/// constrains `v` and lies at or after `i`.
pub proof fn lemma_first_rule_from_props(rs: Seq<RuleExpr>, v: int, i: int)
    requires
        0 <= i,
    ensures
        match first_rule_from(rs, v, i) {
            Some(k) => i <= k < rs.len() && rs[k].var as int == v,
            None => true,
        },
    decreases rs.len() - i,
{
    if i < rs.len() && rs[i].var as int != v {
        lemma_first_rule_from_props(rs, v, i + 1);
    }
}

/// A rule set on which the pipeline has nothing left to do for `goal`:
/// no two rules share a left-hand side, the dependencies are acyclic, a
/// rule for the goal exists, and no rule can be inlined into it.
pub open spec fn solved_form(rs: Seq<RuleExpr>, goal: usize) -> bool {
    &&& first_dup(rs) is None
    &&& !cyclic(rs)
    &&& first_rule_from(rs, goal as int, 0) matches Some(k) && subst_step_spec(rs[k].rhs, rs)
        is None
}

/// The working set `w` and the answer `g` that a successful solve leaves
/// behind: `w` is simplified and acyclic, it constrains the goal, and `g`
/// is the goal's rule with nothing left to inline.
pub open spec fn solved_frame(w: Seq<RuleExpr>, g: RuleExpr, goal: usize) -> bool {
    &&& first_dup(w) is None
    &&& !cyclic(w)
    &&& first_rule_from(w, goal as int, 0) is Some
    &&& g.var == goal
    &&& subst_step_spec(g.rhs, w) is None
}

/// Solve the rules for the goal variable: accumulate and remove until
/// neither applies, check for an infinite type, find the goal rule, and
/// inline rules into it until none applies. Every action is recorded
/// under one strictly increasing sequence of step ids. The run is pinned
/// completely: some trace replays the whole pipeline from the input
/// rules to the returned result, and the three step logs are exactly
/// that trace's per-kind projections — so for a given input, result and
/// logs are determined, and on failure the steps taken before the
/// failure are exactly what the logs hold.
#[verifier::rlimit(100)]
pub fn solve_constraints(rules: Vec<RuleExpr>, goal_var: usize) -> (sol: Solution)
    ensures
        sol.rules@ == rules@,
        sorted_ids(sol.variables@),
        forall|v: int|
            #![trigger mem_id(sol.variables@, v)]
            mem_id(sol.variables@, v) <==> rules_has_var(rules@, v),
        sol.result is Some,
        exists|tr: Seq<SolverStep>|
            {
                &&& #[trigger] replays(rules@, goal_var, tr, sol.result)
                &&& sol.result_remove_steps@ == remove_log(tr)
                &&& sol.result_accumulate_steps@ == accumulate_log(tr)
                &&& sol.result_substitute_steps@ == substitute_log(tr)
            },
        sol.result_remove_steps@.len() + sol.result_accumulate_steps@.len()
            + sol.result_substitute_steps@.len() < usize::MAX as int + 1,
        remove_ids_ok(
            sol.result_remove_steps@,
            sol.result_remove_steps@.len() + sol.result_accumulate_steps@.len()
                + sol.result_substitute_steps@.len() as int,
        ),
        accumulate_ids_ok(
            sol.result_accumulate_steps@,
            sol.result_remove_steps@.len() + sol.result_accumulate_steps@.len()
                + sol.result_substitute_steps@.len() as int,
        ),
        substitute_ids_ok(
            sol.result_substitute_steps@,
            sol.result_remove_steps@.len() + sol.result_accumulate_steps@.len()
                + sol.result_substitute_steps@.len() as int,
        ),
        forall|a: int| 0 <= a < sol.result_remove_steps@.len() ==> remove_step_valid(
            #[trigger] sol.result_remove_steps@[a],
        ),
        forall|a: int| 0 <= a < sol.result_accumulate_steps@.len() ==> accumulate_step_valid(
            #[trigger] sol.result_accumulate_steps@[a],
        ),
        forall|a: int| 0 <= a < sol.result_substitute_steps@.len() ==> substitute_step_valid(
            #[trigger] sol.result_substitute_steps@[a],
        ),
        solved_form(rules@, goal_var) ==> {
            &&& sol.result_remove_steps@.len() == 0
            &&& sol.result_accumulate_steps@.len() == 0
            &&& sol.result_substitute_steps@.len() == 0
            &&& first_rule_from(rules@, goal_var as int, 0) matches Some(k) && sol.result == Some(
                Result::<RuleExpr, SolverError>::Ok(rules@[k]),
            )
        },
        match sol.result {
            Some(Ok(g)) => g.var == goal_var && exists|w: Seq<RuleExpr>|
                #[trigger] solved_frame(w, g, goal_var),
            Some(Err(e)) => exists|w: Seq<RuleExpr>| #[trigger] error_evidence(e, w, goal_var),
            None => false,
        },
{
    let ghost rs0 = rules@;
    let sol_rules = clone_rules(&rules);
    let vars = variables(clone_rules(&rules));
    let mut work = rules;
    let mut steps: Vec<SolverStep> = Vec::new();
    let mut res: Option<Result<RuleExpr, SolverError>> = None;
    let mut counter: usize = 0;

    // Termination measure: every iteration that stays in the loop records
    // at least one step, and the step counter is read back from the log's
    // `len()`, which a `usize` bounds — so the counter's remaining headroom
    // strictly shrinks. This proves the loop finite without formalizing a
    // decreasing measure on the rule set itself.
    let mut simplifying = true;
    while simplifying
        invariant
            counter as int == steps@.len(),
            forall|x: int| 0 <= x < steps@.len() ==> step_id(#[trigger] steps@[x]) == x,
            forall|x: int| 0 <= x < steps@.len() ==> step_valid(#[trigger] steps@[x]),
            solved_form(rs0, goal_var) ==> steps@.len() == 0 && work@ == rs0 && res is None,
            !simplifying && res is None ==> first_dup(work@) is None,
            res is Some ==> !simplifying,
            res is None ==> forall|tfut: Seq<SolverStep>, rfut: Option<
                Result<RuleExpr, SolverError>,
            >|
                tfut.take(counter as int) == steps@ && counter as int <= tfut.len()
                    && #[trigger] replays_simplify(work@, tfut, counter as int, goal_var, rfut)
                    ==> replays_simplify(rs0, tfut, 0, goal_var, rfut),
            res is Some ==> replays_simplify(rs0, steps@, 0, goal_var, res),
            res matches Some(r2) ==> (r2 matches Err(e) && exists|w: Seq<RuleExpr>|
                #[trigger] error_evidence(e, w, goal_var)),
        decreases usize::MAX as int - counter as int + (if simplifying { 1int } else { 0int }),
    {
        let ghost w0 = work@;
        let ghost steps0 = steps@;
        let ghost k0 = counter as int;
        match accumulate_constraints(&mut work, counter) {
            Ok(Some(step)) => {
                let ghost stg = step;
                steps.push(SolverStep::Accumulate(step));
                counter = steps.len();
                let ghost wa = work@;
                match remove_simple_rule(&mut work, counter) {
                    Ok(Some(step2)) => {
                        let ghost st2g = step2;
                        steps.push(SolverStep::Remove(step2));
                        counter = steps.len();
                        proof {
                            let k2 = counter as int;
                            let steps2 = steps@;
                            let wr = work@;
                            assert forall|tfut: Seq<SolverStep>, rfut: Option<
                                Result<RuleExpr, SolverError>,
                            >|
                                tfut.take(k2) == steps2 && k2 <= tfut.len()
                                    && #[trigger] replays_simplify(wr, tfut, k2, goal_var, rfut)
                                    implies replays_simplify(rs0, tfut, 0, goal_var, rfut) by {
                                assert(tfut.take(k2)[k0] == tfut[k0]);
                                assert(tfut.take(k2)[k0 + 1] == tfut[k0 + 1]);
                                assert(tfut[k0] == SolverStep::Accumulate(stg));
                                assert(tfut[k0 + 1] == SolverStep::Remove(st2g));
                                assert(replays_simplify(w0, tfut, k0, goal_var, rfut));
                                assert(tfut.take(k0) =~= steps0) by {
                                    assert forall|x: int| 0 <= x < k0 implies tfut.take(k0)[x]
                                        == steps0[x] by {
                                        assert(tfut.take(k2)[x] == tfut[x]);
                                    }
                                }
                            }
                        }
                    },
                    Ok(None) => {
                        proof {
                            let k1 = counter as int;
                            let steps1 = steps@;
                            assert forall|tfut: Seq<SolverStep>, rfut: Option<
                                Result<RuleExpr, SolverError>,
                            >|
                                tfut.take(k1) == steps1 && k1 <= tfut.len()
                                    && #[trigger] replays_simplify(wa, tfut, k1, goal_var, rfut)
                                    implies replays_simplify(rs0, tfut, 0, goal_var, rfut) by {
                                assert(tfut.take(k1)[k0] == tfut[k0]);
                                assert(tfut[k0] == SolverStep::Accumulate(stg));
                                assert(replays_simplify(w0, tfut, k0, goal_var, rfut));
                                assert(tfut.take(k0) =~= steps0) by {
                                    assert forall|x: int| 0 <= x < k0 implies tfut.take(k0)[x]
                                        == steps0[x] by {
                                        assert(tfut.take(k1)[x] == tfut[x]);
                                    }
                                }
                            }
                        }
                    },
                    Err(e) => {
                        proof {
                            assert(error_evidence(e, work@, goal_var));
                        }
                        res = Some(Err(e));
                        simplifying = false;
                        proof {
                            let steps1 = steps@;
                            assert(steps1[k0] == SolverStep::Accumulate(stg));
                            assert(replays_simplify(w0, steps1, k0, goal_var, res));
                            assert(steps1.take(k0) =~= steps0);
                            assert(replays_simplify(rs0, steps1, 0, goal_var, res));
                        }
                    },
                }
            },
            Ok(None) => {
                simplifying = false;
            },
            Err(e) => {
                proof {
                    assert(error_evidence(e, w0, goal_var));
                }
                res = Some(Err(e));
                simplifying = false;
                proof {
                    assert(replays_simplify(w0, steps0, k0, goal_var, res));
                    assert(steps0.take(k0) =~= steps0);
                    assert(replays_simplify(rs0, steps0, 0, goal_var, res));
                }
            },
        }
    }

    if res.is_none() {
        let ghost k_end = counter as int;
        let ghost steps_end = steps@;
        let ghost w_end = work@;
        match check_cycles(&work) {
            Err(e) => {
                proof {
                    assert(error_evidence(e, work@, goal_var));
                }
                res = Some(Err(e));
                proof {
                    assert(steps_end.take(k_end) =~= steps_end);
                    assert(replays_simplify(w_end, steps_end, k_end, goal_var, res));
                    assert(replays_simplify(rs0, steps_end, 0, goal_var, res));
                }
            },
            Ok(()) => {
                match find_goal_rule(&mut work, goal_var) {
                    Err(e) => {
                        proof {
                            assert(error_evidence(e, work@, goal_var));
                        }
                        res = Some(Err(e));
                        proof {
                            assert(steps_end.take(k_end) =~= steps_end);
                            assert(replays_simplify(w_end, steps_end, k_end, goal_var, res));
                            assert(replays_simplify(rs0, steps_end, 0, goal_var, res));
                        }
                    },
                    Ok(goal_rule0) => {
                        proof {
                            lemma_first_rule_from_props(w_end, goal_var as int, 0);
                        }
                        let mut goal_rule = goal_rule0;
                        proof {
                            assert forall|tfut: Seq<SolverStep>, rfut: Option<
                                Result<RuleExpr, SolverError>,
                            >|
                                tfut.take(counter as int) == steps@ && counter as int
                                    <= tfut.len() && #[trigger] replays_substitute(
                                    w_end,
                                    goal_rule,
                                    tfut,
                                    counter as int,
                                    goal_var,
                                    rfut,
                                ) implies replays_simplify(rs0, tfut, 0, goal_var, rfut) by {
                                assert(replays_finish(w_end, tfut, counter as int, goal_var, rfut));
                                assert(replays_simplify(
                                    w_end,
                                    tfut,
                                    counter as int,
                                    goal_var,
                                    rfut,
                                ));
                            }
                        }
                        // Termination measure: as in the simplification
                        // loop, each continuing iteration records a step,
                        // so the counter's headroom shrinks.
                        let mut substituting = true;
                        while substituting
                            invariant
                                counter as int == steps@.len(),
                                work@ == w_end,
                                res is None,
                                forall|x: int| 0 <= x < steps@.len() ==> step_valid(
                                    #[trigger] steps@[x],
                                ),
                                first_dup(w_end) is None,
                                !cyclic(w_end),
                                first_rule_from(w_end, goal_var as int, 0) is Some,
                                goal_rule.var == goal_var,
                                forall|x: int| 0 <= x < steps@.len() ==> step_id(
                                    #[trigger] steps@[x],
                                ) == x,
                                solved_form(rs0, goal_var) ==> steps@.len() == 0 && w_end == rs0
                                    && (first_rule_from(rs0, goal_var as int, 0) matches Some(k)
                                    && goal_rule == rs0[k]),
                                !substituting ==> subst_step_spec(goal_rule.rhs, w_end) is None,
                                forall|tfut: Seq<SolverStep>, rfut: Option<
                                    Result<RuleExpr, SolverError>,
                                >|
                                    tfut.take(counter as int) == steps@ && counter as int
                                        <= tfut.len() && #[trigger] replays_substitute(
                                        w_end,
                                        goal_rule,
                                        tfut,
                                        counter as int,
                                        goal_var,
                                        rfut,
                                    ) ==> replays_simplify(rs0, tfut, 0, goal_var, rfut),
                            decreases usize::MAX as int - counter as int + (if substituting {
                                1int
                            } else {
                                0int
                            }),
                        {
                            let ghost g0 = goal_rule;
                            let ghost steps0b = steps@;
                            let ghost k0b = counter as int;
                            match substitute_constraints(
                                &mut work,
                                &mut goal_rule,
                                goal_var,
                                counter,
                            ) {
                                Ok(Some(step)) => {
                                    let ghost stg = step;
                                    steps.push(SolverStep::Substitute(step));
                                    counter = steps.len();
                                    proof {
                                        let k1 = counter as int;
                                        let steps1 = steps@;
                                        let g1 = goal_rule;
                                        assert forall|tfut: Seq<SolverStep>, rfut: Option<
                                            Result<RuleExpr, SolverError>,
                                        >|
                                            tfut.take(k1) == steps1 && k1 <= tfut.len()
                                                && #[trigger] replays_substitute(
                                                w_end,
                                                g1,
                                                tfut,
                                                k1,
                                                goal_var,
                                                rfut,
                                            ) implies replays_simplify(
                                                rs0,
                                                tfut,
                                                0,
                                                goal_var,
                                                rfut,
                                            ) by {
                                            assert(tfut.take(k1)[k0b] == tfut[k0b]);
                                            assert(tfut[k0b] == SolverStep::Substitute(stg));
                                            assert(replays_substitute(
                                                w_end,
                                                g0,
                                                tfut,
                                                k0b,
                                                goal_var,
                                                rfut,
                                            ));
                                            assert(tfut.take(k0b) =~= steps0b) by {
                                                assert forall|x: int| 0 <= x < k0b implies
                                                    tfut.take(k0b)[x] == steps0b[x] by {
                                                    assert(tfut.take(k1)[x] == tfut[x]);
                                                }
                                            }
                                        }
                                    }
                                },
                                Ok(None) => {
                                    substituting = false;
                                },
                                Err(_) => {
                                    substituting = false;
                                },
                            }
                        }
                        proof {
                            assert(solved_frame(work@, goal_rule, goal_var));
                        }
                        res = Some(Ok(goal_rule));
                        proof {
                            assert(steps@.take(counter as int) =~= steps@);
                            assert(replays_substitute(
                                w_end,
                                goal_rule,
                                steps@,
                                counter as int,
                                goal_var,
                                res,
                            ));
                            assert(replays_simplify(rs0, steps@, 0, goal_var, res));
                        }
                    },
                }
            },
        }
    }

    let ghost tr_final = steps@;
    let total = steps.len();
    let (rem, acc, sub) = split_steps(steps);
    proof {
        assert(rem@.len() + acc@.len() + sub@.len() == total as int);
        assert(replays(rs0, goal_var, tr_final, res));
    }
    Solution {
        rules: sol_rules,
        variables: vars,
        result_remove_steps: rem,
        result_accumulate_steps: acc,
        result_substitute_steps: sub,
        result: res,
    }
}

// ---------------------------------------------------------------------------
// An accumulate step neither gains nor loses solutions
// ---------------------------------------------------------------------------

/// The accumulate phase's action preserves the solutions of the rule
/// set: replacing the second of two rules that constrain one variable by
/// the rules derived from comparing their right-hand sides changes no
/// assignment's status — it solves the set before the step exactly when
/// it solves the set after it.
pub proof fn lemma_accumulate_preserves_solutions(
    a: Map<int, TypeExpr>,
    w: Seq<RuleExpr>,
    i: int,
    j: int,
)
    requires
        0 <= i < j < w.len(),
        w[i].var == w[j].var,
        compare_spec(w[i], w[j]) is Some,
    ensures
        compare_spec(w[i], w[j]) matches Some(added) && (all_hold(a, w) <==> all_hold(
            a,
            w.update(j, w.last()).drop_last() + added,
        )),
{
    let added = compare_spec(w[i], w[j])->Some_0;
    let base = w.update(j, w.last()).drop_last();
    lemma_all_hold_concat(a, base, added);
    if all_hold(a, w) {
        assert forall|k: int| 0 <= k < base.len() implies #[trigger] rule_holds(a, base[k]) by {
            if k == j {
                assert(base[k] == w[w.len() - 1]);
                assert(rule_holds(a, w[w.len() - 1]));
            } else {
                assert(base[k] == w[k]);
                assert(rule_holds(a, w[k]));
            }
        }
        assert(rule_holds(a, w[i]));
        lemma_compare_preserves(a, w[i], w[j]);
        assert(rule_holds(a, w[j]));
    }
    if all_hold(a, base + added) {
        assert(base[i] == w[i]);
        assert(rule_holds(a, base[i]));
        lemma_compare_preserves(a, w[i], w[j]);
        assert forall|k: int| 0 <= k < w.len() implies #[trigger] rule_holds(a, w[k]) by {
            if k == j {
                assert(rule_holds(a, w[j]));
            } else if k == w.len() - 1 {
                assert(base[j] == w[w.len() - 1]);
                assert(rule_holds(a, base[j]));
            } else {
                assert(base[k] == w[k]);
                assert(rule_holds(a, base[k]));
            }
        }
    }
}

// ---------------------------------------------------------------------------
// Idempotence of the pipeline
// ---------------------------------------------------------------------------

/// The scan for a rule of `v` fails exactly when no rule from `i` on
/// constrains `v`.
pub proof fn lemma_first_rule_from_none(rs: Seq<RuleExpr>, v: int, i: int)
    requires
        0 <= i,
    ensures
        first_rule_from(rs, v, i) is None <==> forall|k: int|
            i <= k < rs.len() ==> (#[trigger] rs[k]).var as int != v,
    decreases rs.len() - i,
{
    if i < rs.len() && rs[i].var as int != v {
        lemma_first_rule_from_none(rs, v, i + 1);
    }
}

/// Two rule sets whose left-hand sides agree position by position are
/// scanned alike.
pub proof fn lemma_first_rule_from_same_lhs(rs1: Seq<RuleExpr>, rs2: Seq<RuleExpr>, v: int, i: int)
    requires
        0 <= i,
        rs1.len() == rs2.len(),
        forall|x: int| 0 <= x < rs1.len() ==> (#[trigger] rs1[x]).var == (#[trigger] rs2[x]).var,
    ensures
        first_rule_from(rs1, v, i) == first_rule_from(rs2, v, i),
    decreases rs1.len() - i,
{
    if i < rs1.len() && rs1[i].var as int != v {
        lemma_first_rule_from_same_lhs(rs1, rs2, v, i + 1);
    }
}

/// Nothing can be inlined into `t` exactly when no variable of `t` is
/// constrained by any rule.
pub proof fn lemma_subst_none_vars(t: TypeExpr, rs: Seq<RuleExpr>)
    ensures
        subst_step_spec(t, rs) is None <==> forall|v: int|
            #[trigger] t.has_var(v) ==> first_rule_from(rs, v, 0) is None,
    decreases t,
{
    match t {
        TypeExpr::Var(x) => {
            assert(t.has_var(x as int));
        },
        TypeExpr::Int => {
        },
        TypeExpr::Bool => {
        },
        TypeExpr::Function(a, b) => {
            lemma_subst_none_vars(*a, rs);
            lemma_subst_none_vars(*b, rs);
            if subst_step_spec(t, rs) is None {
                assert forall|v: int| #[trigger] t.has_var(v) implies first_rule_from(rs, v, 0)
                    is None by {
                    assert(a.has_var(v) || b.has_var(v));
                }
            }
            if forall|v: int| #[trigger] t.has_var(v) ==> first_rule_from(rs, v, 0) is None {
                assert forall|v: int| #[trigger] a.has_var(v) implies first_rule_from(rs, v, 0)
                    is None by {
                    assert(t.has_var(v));
                }
                assert forall|v: int| #[trigger] b.has_var(v) implies first_rule_from(rs, v, 0)
                    is None by {
                    assert(t.has_var(v));
                }
                assert(subst_step_spec(*a, rs) is None);
                assert(subst_step_spec(*b, rs) is None);
            }
        },
        TypeExpr::Tuple(a, b) => {
            lemma_subst_none_vars(*a, rs);
            lemma_subst_none_vars(*b, rs);
            if subst_step_spec(t, rs) is None {
                assert forall|v: int| #[trigger] t.has_var(v) implies first_rule_from(rs, v, 0)
                    is None by {
                    assert(a.has_var(v) || b.has_var(v));
                }
            }
            if forall|v: int| #[trigger] t.has_var(v) ==> first_rule_from(rs, v, 0) is None {
                assert forall|v: int| #[trigger] a.has_var(v) implies first_rule_from(rs, v, 0)
                    is None by {
                    assert(t.has_var(v));
                }
                assert forall|v: int| #[trigger] b.has_var(v) implies first_rule_from(rs, v, 0)
                    is None by {
                    assert(t.has_var(v));
                }
                assert(subst_step_spec(*a, rs) is None);
                assert(subst_step_spec(*b, rs) is None);
            }
        },
    }
}

/// The rule set that a successful solve leaves behind: the simplified
/// working set, with the goal's rule replaced by the fully substituted
/// answer.
pub open spec fn final_rules(w: Seq<RuleExpr>, g: RuleExpr, goal: usize) -> Seq<RuleExpr> {
    match first_rule_from(w, goal as int, 0) {
        Some(k) => w.update(k, g),
        None => w,
    }
}

/// Re-running the whole pipeline — accumulate, remove, cycle check,
/// substitute — on the solver's own final rule set performs no further
/// step and returns the same final type: the final set is already in
/// solved form, and its goal rule is the answer itself. Together with the
/// contract of `solve_constraints`, a second solve on `final_rules` logs
/// no step of any kind and returns `Ok` with the same rule.
#[verifier::rlimit(60)]
pub proof fn lemma_pipeline_idempotent(w: Seq<RuleExpr>, g: RuleExpr, goal: usize)
    requires
        solved_frame(w, g, goal),
    ensures
        solved_form(final_rules(w, g, goal), goal),
        first_rule_from(final_rules(w, g, goal), goal as int, 0) matches Some(k) && final_rules(
            w,
            g,
            goal,
        )[k] == g,
{
    lemma_first_rule_from_props(w, goal as int, 0);
    let k0 = first_rule_from(w, goal as int, 0)->Some_0;
    let s2 = final_rules(w, g, goal);
    assert(s2 == w.update(k0, g));
    assert(forall|x: int| 0 <= x < w.len() ==> (#[trigger] w[x]).var == (#[trigger] s2[x]).var);

    // the left-hand sides are unchanged, so no pair shares one
    lemma_first_dup_none(w);
    lemma_first_dup_none(s2);
    assert(no_shared_lhs(s2));

    // the goal is found at the same place, now holding the answer
    lemma_first_rule_from_same_lhs(w, s2, goal as int, 0);
    assert(s2[k0] == g);

    // no variable of the answer is constrained by any rule
    lemma_subst_none_vars(g.rhs, w);
    lemma_subst_none_vars(g.rhs, s2);
    assert forall|v: int| #[trigger] g.rhs.has_var(v) implies first_rule_from(s2, v, 0)
        is None by {
        lemma_first_rule_from_same_lhs(w, s2, v, 0);
    }
    assert(subst_step_spec(g.rhs, s2) is None);

    // a cycle in the new set would have been a cycle in the old one
    if cyclic(s2) {
        let s = choose|s: Set<int>| cycle_witness(s2, s);
        assert forall|v: int| s.contains(v) implies feeds_cycle(w, s, v) by {
            assert(feeds_cycle(s2, s, v));
            let k = choose|k: int|
                0 <= k < s2.len() && (#[trigger] s2[k]).var as int == v && rhs_hits(s2[k].rhs, s);
            if k == k0 {
                let vw = choose|vw: int| #[trigger] s.contains(vw) && g.rhs.has_var(vw);
                assert(feeds_cycle(s2, s, vw));
                let k2 = choose|k2: int|
                    0 <= k2 < s2.len() && (#[trigger] s2[k2]).var as int == vw && rhs_hits(
                        s2[k2].rhs,
                        s,
                    );
                lemma_first_rule_from_none(s2, vw, 0);
                assert(first_rule_from(s2, vw, 0) is None);
                assert(false);
            } else {
                assert(w[k] == s2[k]);
                assert(rhs_hits(w[k].rhs, s));
            }
        }
        assert(cycle_witness(w, s));
        assert(false);
    }
}

} // verus!
