//! The algebra of type expressions, rules, solver errors, and the
//! normalization of raw constraints into rules.

use vstd::prelude::*;

verus! {

/// A type expression: a type variable, an atomic type, a function type,
/// or a pair type. Equality is structural.
#[derive(Debug)]
pub enum TypeExpr {
    Var(usize),
    Int,
    Bool,
    Function(Box<TypeExpr>, Box<TypeExpr>),
    Tuple(Box<TypeExpr>, Box<TypeExpr>),
}

impl Clone for TypeExpr {
    /// A clone is structurally equal to the original.
    fn clone(&self) -> (res: Self)
        ensures
            res == *self,
        decreases self,
    {
        match self {
            TypeExpr::Var(x) => TypeExpr::Var(*x),
            TypeExpr::Int => TypeExpr::Int,
            TypeExpr::Bool => TypeExpr::Bool,
            TypeExpr::Function(a, b) => TypeExpr::Function(
                Box::new((**a).clone()),
                Box::new((**b).clone()),
            ),
            TypeExpr::Tuple(a, b) => TypeExpr::Tuple(
                Box::new((**a).clone()),
                Box::new((**b).clone()),
            ),
        }
    }
}

impl TypeExpr {
    /// Does the variable `v` occur anywhere in this type?
    pub open spec fn has_var(self, v: int) -> bool
        decreases self,
    {
        match self {
            TypeExpr::Var(x) => x as int == v,
            TypeExpr::Int => false,
            TypeExpr::Bool => false,
            TypeExpr::Function(a, b) => a.has_var(v) || b.has_var(v),
            TypeExpr::Tuple(a, b) => a.has_var(v) || b.has_var(v),
        }
    }

    /// The largest variable id occurring in this type, or 0 if none occurs.
    pub open spec fn max_var_spec(self) -> int
        decreases self,
    {
        match self {
            TypeExpr::Var(x) => x as int,
            TypeExpr::Int => 0,
            TypeExpr::Bool => 0,
            TypeExpr::Function(a, b) => vstd::math::max(a.max_var_spec(), b.max_var_spec()),
            TypeExpr::Tuple(a, b) => vstd::math::max(a.max_var_spec(), b.max_var_spec()),
        }
    }

    /// Every variable of this type has an id strictly below `n`.
    pub open spec fn below(self, n: int) -> bool
        decreases self,
    {
        match self {
            TypeExpr::Var(x) => (x as int) < n,
            TypeExpr::Int => true,
            TypeExpr::Bool => true,
            TypeExpr::Function(a, b) => a.below(n) && b.below(n),
            TypeExpr::Tuple(a, b) => a.below(n) && b.below(n),
        }
    }

    /// The type with every occurrence of variable `from` replaced by `to`.
    pub open spec fn subst_spec(self, from: int, to: usize) -> TypeExpr
        decreases self,
    {
        match self {
            TypeExpr::Var(x) => if x as int == from {
                TypeExpr::Var(to)
            } else {
                TypeExpr::Var(x)
            },
            TypeExpr::Int => TypeExpr::Int,
            TypeExpr::Bool => TypeExpr::Bool,
            TypeExpr::Function(a, b) => TypeExpr::Function(
                Box::new(a.subst_spec(from, to)),
                Box::new(b.subst_spec(from, to)),
            ),
            TypeExpr::Tuple(a, b) => TypeExpr::Tuple(
                Box::new(a.subst_spec(from, to)),
                Box::new(b.subst_spec(from, to)),
            ),
        }
    }

    /// Structural equality, decided executably.
    pub fn eq_type(&self, other: &TypeExpr) -> (r: bool)
        ensures
            r == (*self == *other),
        decreases self,
    {
        match (self, other) {
            (TypeExpr::Var(x), TypeExpr::Var(y)) => x == y,
            (TypeExpr::Int, TypeExpr::Int) => true,
            (TypeExpr::Bool, TypeExpr::Bool) => true,
            (TypeExpr::Function(a1, a2), TypeExpr::Function(b1, b2)) => {
                a1.eq_type(b1) && a2.eq_type(b2)
            },
            (TypeExpr::Tuple(a1, a2), TypeExpr::Tuple(b1, b2)) => {
                a1.eq_type(b1) && a2.eq_type(b2)
            },
            _ => false,
        }
    }

    /// Does the variable `v` occur anywhere in this type?
    pub fn contains_var(&self, v: usize) -> (r: bool)
        ensures
            r == self.has_var(v as int),
        decreases self,
    {
        match self {
            TypeExpr::Var(x) => *x == v,
            TypeExpr::Int => false,
            TypeExpr::Bool => false,
            TypeExpr::Function(a, b) => a.contains_var(v) || b.contains_var(v),
            TypeExpr::Tuple(a, b) => a.contains_var(v) || b.contains_var(v),
        }
    }

    /// The largest variable id occurring in this type, or 0 if none occurs.
    pub fn max_var(&self) -> (r: usize)
        ensures
            r as int == self.max_var_spec(),
        decreases self,
    {
        match self {
            TypeExpr::Var(x) => *x,
            TypeExpr::Int => 0,
            TypeExpr::Bool => 0,
            TypeExpr::Function(a, b) => {
                let m1 = a.max_var();
                let m2 = b.max_var();
                if m1 >= m2 { m1 } else { m2 }
            },
            TypeExpr::Tuple(a, b) => {
                let m1 = a.max_var();
                let m2 = b.max_var();
                if m1 >= m2 { m1 } else { m2 }
            },
        }
    }

    /// The type with every occurrence of variable `from` replaced by `to`.
    pub fn subst(&self, from: usize, to: usize) -> (r: TypeExpr)
        ensures
            r == self.subst_spec(from as int, to),
        decreases self,
    {
        match self {
            TypeExpr::Var(x) => if *x == from {
                TypeExpr::Var(to)
            } else {
                TypeExpr::Var(*x)
            },
            TypeExpr::Int => TypeExpr::Int,
            TypeExpr::Bool => TypeExpr::Bool,
            TypeExpr::Function(a, b) => TypeExpr::Function(
                Box::new(a.subst(from, to)),
                Box::new(b.subst(from, to)),
            ),
            TypeExpr::Tuple(a, b) => TypeExpr::Tuple(
                Box::new(a.subst(from, to)),
                Box::new(b.subst(from, to)),
            ),
        }
    }
}

/// A normalized constraint: the type variable `var` equals the type `rhs`.
#[derive(Debug)]
pub struct RuleExpr {
    pub var: usize,
    pub rhs: TypeExpr,
}

impl Clone for RuleExpr {
    /// A clone is structurally equal to the original.
    fn clone(&self) -> (res: Self)
        ensures
            res == *self,
    {
        RuleExpr { var: self.var, rhs: self.rhs.clone() }
    }
}

impl RuleExpr {
    /// Structural equality, decided executably.
    pub fn eq_rule(&self, other: &RuleExpr) -> (r: bool)
        ensures
            r == (*self == *other),
    {
        self.var == other.var && self.rhs.eq_type(&other.rhs)
    }

    /// Is `v` the left-hand-side variable of this rule?
    pub fn has_lhs(&self, v: usize) -> (r: bool)
        ensures
            r == (self.var == v),
    {
        self.var == v
    }

    /// Do the two rules constrain the same variable?
    pub fn has_same_lhs(&self, other: &RuleExpr) -> (r: bool)
        ensures
            r == (self.var == other.var),
    {
        self.var == other.var
    }

    /// If this rule has the shape `Var(x) = Var(y)`, the pair `(x, y)`.
    pub fn is_simple(&self) -> (r: Option<(usize, usize)>)
        ensures
            match self.rhs {
                TypeExpr::Var(y) => r == Some((self.var, y)),
                _ => r is None,
            },
    {
        match self.rhs {
            TypeExpr::Var(y) => Some((self.var, y)),
            _ => None,
        }
    }

    /// The rule with every occurrence of variable `from` (left- and
    /// right-hand side) replaced by `to`.
    pub open spec fn rule_subst(self, from: int, to: usize) -> RuleExpr {
        RuleExpr {
            var: if self.var as int == from { to } else { self.var },
            rhs: self.rhs.subst_spec(from, to),
        }
    }

    /// Replace every occurrence of variable `from` by `to`, on both sides.
    pub fn replace_var(&mut self, from: usize, to: usize)
        ensures
            *final(self) == old(self).rule_subst(from as int, to),
    {
        if self.var == from {
            self.var = to;
        }
        self.rhs = self.rhs.subst(from, to);
    }
}

/// A structured failure of the constraint solver.
#[derive(Debug)]
pub enum SolverError {
    /// Two rules constrain the same variable to type shapes that cannot
    /// be combined.
    IncompatibleConstraint(RuleExpr, RuleExpr),
    /// A rule equates a variable with itself.
    RecursiveDefinition(usize),
    /// The variable dependencies of the rules contain a cycle, so the
    /// constraints describe an infinite type.
    CycleDetected,
    /// No rule constrains the requested goal variable.
    GoalNotFound(usize),
}

impl Clone for SolverError {
    /// A clone is structurally equal to the original.
    fn clone(&self) -> (res: Self)
        ensures
            res == *self,
    {
        match self {
            SolverError::IncompatibleConstraint(a, b) => {
                SolverError::IncompatibleConstraint(a.clone(), b.clone())
            },
            SolverError::RecursiveDefinition(x) => SolverError::RecursiveDefinition(*x),
            SolverError::CycleDetected => SolverError::CycleDetected,
            SolverError::GoalNotFound(x) => SolverError::GoalNotFound(*x),
        }
    }
}

/// A structured failure of the derivation-tree builder.
#[derive(Debug)]
pub enum BuildError {
    /// The expression references a variable that no enclosing
    /// abstraction binds.
    UnboundVariable(String),
}

impl Clone for BuildError {
    /// A clone is structurally equal to the original.
    fn clone(&self) -> (res: Self)
        ensures
            res == *self,
    {
        match self {
            BuildError::UnboundVariable(x) => BuildError::UnboundVariable(x.clone()),
        }
    }
}

/// Pair two matching substructures: a bare variable on either side gives a
/// direct rule, matching compound shapes decompose recursively, and
/// anything else cannot be combined.
pub open spec fn decompose_spec(a: TypeExpr, b: TypeExpr) -> Option<Seq<RuleExpr>>
    decreases a,
{
    match a {
        TypeExpr::Var(x) => Some(seq![RuleExpr { var: x, rhs: b }]),
        _ => match b {
            TypeExpr::Var(y) => Some(seq![RuleExpr { var: y, rhs: a }]),
            _ => match (a, b) {
                (TypeExpr::Int, TypeExpr::Int) => Some(Seq::empty()),
                (TypeExpr::Bool, TypeExpr::Bool) => Some(Seq::empty()),
                (TypeExpr::Function(a1, a2), TypeExpr::Function(b1, b2)) => {
                    match (decompose_spec(*a1, *b1), decompose_spec(*a2, *b2)) {
                        (Some(s1), Some(s2)) => Some(s1 + s2),
                        _ => None,
                    }
                },
                (TypeExpr::Tuple(a1, a2), TypeExpr::Tuple(b1, b2)) => {
                    match (decompose_spec(*a1, *b1), decompose_spec(*a2, *b2)) {
                        (Some(s1), Some(s2)) => Some(s1 + s2),
                        _ => None,
                    }
                },
                _ => None,
            },
        },
    }
}

/// What comparing two rules with one left-hand side yields: the right-hand
/// sides must have the identical top shape (`Function`/`Function`,
/// `Tuple`/`Tuple`, or equal atoms), and their substructures are then
/// paired off; any other combination is incompatible.
pub open spec fn compare_spec(x: RuleExpr, y: RuleExpr) -> Option<Seq<RuleExpr>> {
    match (x.rhs, y.rhs) {
        (TypeExpr::Int, TypeExpr::Int) => Some(Seq::empty()),
        (TypeExpr::Bool, TypeExpr::Bool) => Some(Seq::empty()),
        (TypeExpr::Function(a1, a2), TypeExpr::Function(b1, b2)) => {
            match (decompose_spec(*a1, *b1), decompose_spec(*a2, *b2)) {
                (Some(s1), Some(s2)) => Some(s1 + s2),
                _ => None,
            }
        },
        (TypeExpr::Tuple(a1, a2), TypeExpr::Tuple(b1, b2)) => {
            match (decompose_spec(*a1, *b1), decompose_spec(*a2, *b2)) {
                (Some(s1), Some(s2)) => Some(s1 + s2),
                _ => None,
            }
        },
        _ => None,
    }
}

/// Pair two matching substructures into direct rules; `None` when their
/// shapes cannot be combined.
pub fn decompose(a: &TypeExpr, b: &TypeExpr) -> (r: Option<Vec<RuleExpr>>)
    ensures
        r is Some <==> decompose_spec(*a, *b) is Some,
        r matches Some(v) ==> decompose_spec(*a, *b) matches Some(s) && v@ == s,
    decreases a,
{
    match (a, b) {
        (TypeExpr::Var(x), _) => {
            let mut v: Vec<RuleExpr> = Vec::new();
            v.push(RuleExpr { var: *x, rhs: b.clone() });
            proof {
                assert(v@ =~= seq![RuleExpr { var: *x, rhs: *b }]);
            }
            Some(v)
        },
        (_, TypeExpr::Var(y)) => {
            let mut v: Vec<RuleExpr> = Vec::new();
            v.push(RuleExpr { var: *y, rhs: a.clone() });
            proof {
                assert(v@ =~= seq![RuleExpr { var: *y, rhs: *a }]);
            }
            Some(v)
        },
        (TypeExpr::Int, TypeExpr::Int) => Some(Vec::new()),
        (TypeExpr::Bool, TypeExpr::Bool) => Some(Vec::new()),
        (TypeExpr::Function(a1, a2), TypeExpr::Function(b1, b2)) => {
            match (decompose(a1, b1), decompose(a2, b2)) {
                (Some(mut s1), Some(mut s2)) => {
                    s1.append(&mut s2);
                    Some(s1)
                },
                _ => None,
            }
        },
        (TypeExpr::Tuple(a1, a2), TypeExpr::Tuple(b1, b2)) => {
            match (decompose(a1, b1), decompose(a2, b2)) {
                (Some(mut s1), Some(mut s2)) => {
                    s1.append(&mut s2);
                    Some(s1)
                },
                _ => None,
            }
        },
        _ => None,
    }
}

impl RuleExpr {
    /// Compare two rules that share a left-hand side: the derived rules
    /// between their right-hand sides' substructures, or `None` when the
    /// two shapes are incompatible.
    pub fn compare_rules(&self, other: &RuleExpr) -> (r: Option<Vec<RuleExpr>>)
        ensures
            r is Some <==> compare_spec(*self, *other) is Some,
            r matches Some(v) ==> compare_spec(*self, *other) matches Some(s) && v@ == s,
    {
        match (&self.rhs, &other.rhs) {
            (TypeExpr::Int, TypeExpr::Int) => Some(Vec::new()),
            (TypeExpr::Bool, TypeExpr::Bool) => Some(Vec::new()),
            (TypeExpr::Function(a1, a2), TypeExpr::Function(b1, b2)) => {
                match (decompose(a1, b1), decompose(a2, b2)) {
                    (Some(mut s1), Some(mut s2)) => {
                        s1.append(&mut s2);
                        Some(s1)
                    },
                    _ => None,
                }
            },
            (TypeExpr::Tuple(a1, a2), TypeExpr::Tuple(b1, b2)) => {
                match (decompose(a1, b1), decompose(a2, b2)) {
                    (Some(mut s1), Some(mut s2)) => {
                        s1.append(&mut s2);
                        Some(s1)
                    },
                    _ => None,
                }
            },
            _ => None,
        }
    }
}

/// Copy a list of rules; the copy's contents equal the original's.
pub fn clone_rules(v: &Vec<RuleExpr>) -> (r: Vec<RuleExpr>)
    ensures
        r@ == v@,
{
    let mut r: Vec<RuleExpr> = Vec::new();
    let n = v.len();
    for i in 0..n
        invariant
            n == v@.len(),
            r@ == v@.take(i as int),
        decreases n - i,
    {
        r.push(v[i].clone());
        proof {
            assert(r@ =~= v@.take(i + 1));
        }
    }
    proof {
        assert(v@.take(n as int) =~= v@);
    }
    r
}

/// Copy a list of raw constraints; the copy's contents equal the
/// original's.
pub fn clone_constraints(v: &Vec<(TypeExpr, TypeExpr)>) -> (r: Vec<(TypeExpr, TypeExpr)>)
    ensures
        r@ == v@,
{
    let mut r: Vec<(TypeExpr, TypeExpr)> = Vec::new();
    let n = v.len();
    for i in 0..n
        invariant
            n == v@.len(),
            r@ == v@.take(i as int),
        decreases n - i,
    {
        r.push((v[i].0.clone(), v[i].1.clone()));
        proof {
            assert(r@ =~= v@.take(i + 1));
        }
    }
    proof {
        assert(v@.take(n as int) =~= v@);
    }
    r
}

/// Every type on either side of the constraints keeps its variables
/// strictly below `b`.
pub open spec fn cs_below(cs: Seq<(TypeExpr, TypeExpr)>, b: int) -> bool {
    forall|i: int| 0 <= i < cs.len() ==> (#[trigger] cs[i]).0.below(b) && cs[i].1.below(b)
}

/// A bound on a type's variables stays a bound when it grows.
pub proof fn lemma_below_mono(t: TypeExpr, n: int, m: int)
    requires
        t.below(n),
        n <= m,
    ensures
        t.below(m),
    decreases t,
{
    match t {
        TypeExpr::Var(_) => {},
        TypeExpr::Int => {},
        TypeExpr::Bool => {},
        TypeExpr::Function(a, b) => {
            lemma_below_mono(*a, n, m);
            lemma_below_mono(*b, n, m);
        },
        TypeExpr::Tuple(a, b) => {
            lemma_below_mono(*a, n, m);
            lemma_below_mono(*b, n, m);
        },
    }
}

/// A bound on the constraints' variables stays a bound when it grows.
pub proof fn lemma_cs_below_mono(cs: Seq<(TypeExpr, TypeExpr)>, n: int, m: int)
    requires
        cs_below(cs, n),
        n <= m,
    ensures
        cs_below(cs, m),
{
    assert forall|i: int| 0 <= i < cs.len() implies (#[trigger] cs[i]).0.below(m) && cs[i].1.below(
        m,
    ) by {
        lemma_below_mono(cs[i].0, n, m);
        lemma_below_mono(cs[i].1, n, m);
    }
}

/// Bounded constraint lists stay bounded under concatenation.
pub proof fn lemma_cs_below_concat(a: Seq<(TypeExpr, TypeExpr)>, b: Seq<(TypeExpr, TypeExpr)>, m: int)
    requires
        cs_below(a, m),
        cs_below(b, m),
    ensures
        cs_below(a + b, m),
{
    assert forall|i: int| 0 <= i < (a + b).len() implies (#[trigger] (a + b)[i]).0.below(m) && (a
        + b)[i].1.below(m) by {
        if i < a.len() {
            assert((a + b)[i] == a[i]);
        } else {
            assert((a + b)[i] == b[i - a.len()]);
        }
    }
}

/// A single bounded constraint is a bounded list.
pub proof fn lemma_cs_below_one(c: (TypeExpr, TypeExpr), m: int)
    requires
        c.0.below(m),
        c.1.below(m),
    ensures
        cs_below(seq![c], m),
{
    assert(seq![c][0] == c);
}

/// When every variable of a type lies below `b`, so does its maximum.
pub proof fn lemma_max_var_below(t: TypeExpr, b: int)
    requires
        t.below(b),
        b >= 1,
    ensures
        t.max_var_spec() < b,
    decreases t,
{
    match t {
        TypeExpr::Var(_) => {},
        TypeExpr::Int => {},
        TypeExpr::Bool => {},
        TypeExpr::Function(a, b2) => {
            lemma_max_var_below(*a, b);
            lemma_max_var_below(*b2, b);
        },
        TypeExpr::Tuple(a, b2) => {
            lemma_max_var_below(*a, b);
            lemma_max_var_below(*b2, b);
        },
    }
}

/// When every variable on both sides of the constraints lies below `b`,
/// so does the largest id among them.
pub proof fn lemma_cs_max_bound(cs: Seq<(TypeExpr, TypeExpr)>, b: int)
    requires
        cs_below(cs, b),
        b >= 1,
    ensures
        cs_max(cs) < b,
    decreases cs.len(),
{
    if cs.len() > 0 {
        assert(cs_below(cs.drop_last(), b)) by {
            assert forall|i: int| 0 <= i < cs.drop_last().len() implies (#[trigger] cs.drop_last()[
            i]).0.below(b) && cs.drop_last()[i].1.below(b) by {
                assert(cs.drop_last()[i] == cs[i]);
            }
        }
        lemma_cs_max_bound(cs.drop_last(), b);
        lemma_max_var_below(cs.last().0, b);
        lemma_max_var_below(cs.last().1, b);
    }
}

/// The type with every variable replaced by what the assignment `a`
/// gives it; variables outside the assignment stay themselves.
pub open spec fn apply_assign(a: Map<int, TypeExpr>, t: TypeExpr) -> TypeExpr
    decreases t,
{
    match t {
        TypeExpr::Var(x) => if a.dom().contains(x as int) {
            a[x as int]
        } else {
            t
        },
        TypeExpr::Int => TypeExpr::Int,
        TypeExpr::Bool => TypeExpr::Bool,
        TypeExpr::Function(t1, t2) => TypeExpr::Function(
            Box::new(apply_assign(a, *t1)),
            Box::new(apply_assign(a, *t2)),
        ),
        TypeExpr::Tuple(t1, t2) => TypeExpr::Tuple(
            Box::new(apply_assign(a, *t1)),
            Box::new(apply_assign(a, *t2)),
        ),
    }
}

/// The assignment solves the rule: both sides become the same type.
pub open spec fn rule_holds(a: Map<int, TypeExpr>, r: RuleExpr) -> bool {
    apply_assign(a, TypeExpr::Var(r.var)) == apply_assign(a, r.rhs)
}

/// The assignment solves every rule of the set.
pub open spec fn all_hold(a: Map<int, TypeExpr>, rs: Seq<RuleExpr>) -> bool {
    forall|k: int| 0 <= k < rs.len() ==> #[trigger] rule_holds(a, rs[k])
}

/// An assignment solves a concatenation of rule lists exactly when it
/// solves both lists.
pub proof fn lemma_all_hold_concat(a: Map<int, TypeExpr>, s1: Seq<RuleExpr>, s2: Seq<RuleExpr>)
    ensures
        all_hold(a, s1 + s2) <==> (all_hold(a, s1) && all_hold(a, s2)),
{
    if all_hold(a, s1 + s2) {
        assert forall|k: int| 0 <= k < s1.len() implies #[trigger] rule_holds(a, s1[k]) by {
            assert((s1 + s2)[k] == s1[k]);
            assert(rule_holds(a, (s1 + s2)[k]));
        }
        assert forall|k: int| 0 <= k < s2.len() implies #[trigger] rule_holds(a, s2[k]) by {
            assert((s1 + s2)[s1.len() + k] == s2[k]);
            assert(rule_holds(a, (s1 + s2)[s1.len() + k]));
        }
    }
    if all_hold(a, s1) && all_hold(a, s2) {
        assert forall|k: int| 0 <= k < (s1 + s2).len() implies #[trigger] rule_holds(
            a,
            (s1 + s2)[k],
        ) by {
            if k < s1.len() {
                assert((s1 + s2)[k] == s1[k]);
                assert(rule_holds(a, s1[k]));
            } else {
                assert((s1 + s2)[k] == s2[k - s1.len()]);
                assert(rule_holds(a, s2[k - s1.len()]));
            }
        }
    }
}

/// Pairing two substructures neither gains nor loses solutions: an
/// assignment solves the derived rules exactly when it makes the two
/// types equal.
pub proof fn lemma_decompose_preserves(a: Map<int, TypeExpr>, x: TypeExpr, y: TypeExpr)
    requires
        decompose_spec(x, y) is Some,
    ensures
        decompose_spec(x, y) matches Some(s) && (all_hold(a, s) <==> apply_assign(a, x)
            == apply_assign(a, y)),
    decreases x,
{
    let s = decompose_spec(x, y)->Some_0;
    match x {
        TypeExpr::Var(vx) => {
            assert(s[0] == (RuleExpr { var: vx, rhs: y }));
            assert(rule_holds(a, s[0]) <==> apply_assign(a, x) == apply_assign(a, y));
            if apply_assign(a, x) == apply_assign(a, y) {
                assert forall|k: int| 0 <= k < s.len() implies #[trigger] rule_holds(a, s[k]) by {
                    assert(k == 0);
                }
            }
        },
        _ => match y {
            TypeExpr::Var(vy) => {
                assert(s[0] == (RuleExpr { var: vy, rhs: x }));
                assert(rule_holds(a, s[0]) <==> apply_assign(a, x) == apply_assign(a, y));
                if apply_assign(a, x) == apply_assign(a, y) {
                    assert forall|k: int| 0 <= k < s.len() implies #[trigger] rule_holds(
                        a,
                        s[k],
                    ) by {
                        assert(k == 0);
                    }
                }
            },
            _ => match (x, y) {
                (TypeExpr::Int, TypeExpr::Int) => {
                },
                (TypeExpr::Bool, TypeExpr::Bool) => {
                },
                (TypeExpr::Function(x1, x2), TypeExpr::Function(y1, y2)) => {
                    lemma_decompose_preserves(a, *x1, *y1);
                    lemma_decompose_preserves(a, *x2, *y2);
                    lemma_all_hold_concat(
                        a,
                        decompose_spec(*x1, *y1)->Some_0,
                        decompose_spec(*x2, *y2)->Some_0,
                    );
                },
                (TypeExpr::Tuple(x1, x2), TypeExpr::Tuple(y1, y2)) => {
                    lemma_decompose_preserves(a, *x1, *y1);
                    lemma_decompose_preserves(a, *x2, *y2);
                    lemma_all_hold_concat(
                        a,
                        decompose_spec(*x1, *y1)->Some_0,
                        decompose_spec(*x2, *y2)->Some_0,
                    );
                },
                _ => {
                },
            },
        },
    }
}

/// Comparing two rules that constrain one variable neither gains nor
/// loses solutions: in the presence of the first rule, an assignment
/// solves the second exactly when it solves the derived rules.
pub proof fn lemma_compare_preserves(a: Map<int, TypeExpr>, x: RuleExpr, y: RuleExpr)
    requires
        x.var == y.var,
        compare_spec(x, y) is Some,
        rule_holds(a, x),
    ensures
        compare_spec(x, y) matches Some(added) && (rule_holds(a, y) <==> all_hold(a, added)),
{
    match (x.rhs, y.rhs) {
        (TypeExpr::Int, TypeExpr::Int) => {
        },
        (TypeExpr::Bool, TypeExpr::Bool) => {
        },
        (TypeExpr::Function(x1, x2), TypeExpr::Function(y1, y2)) => {
            lemma_decompose_preserves(a, *x1, *y1);
            lemma_decompose_preserves(a, *x2, *y2);
            lemma_all_hold_concat(
                a,
                decompose_spec(*x1, *y1)->Some_0,
                decompose_spec(*x2, *y2)->Some_0,
            );
        },
        (TypeExpr::Tuple(x1, x2), TypeExpr::Tuple(y1, y2)) => {
            lemma_decompose_preserves(a, *x1, *y1);
            lemma_decompose_preserves(a, *x2, *y2);
            lemma_all_hold_concat(
                a,
                decompose_spec(*x1, *y1)->Some_0,
                decompose_spec(*x2, *y2)->Some_0,
            );
        },
        _ => {
        },
    }
}

/// The larger of a constraint's two maximum variable ids.
pub open spec fn constraint_max(c: (TypeExpr, TypeExpr)) -> int {
    vstd::math::max(c.0.max_var_spec(), c.1.max_var_spec())
}

/// The largest variable id appearing anywhere in the constraints, or 0 if
/// none appears.
pub open spec fn cs_max(cs: Seq<(TypeExpr, TypeExpr)>) -> int
    decreases cs.len(),
{
    if cs.len() == 0 {
        0
    } else {
        vstd::math::max(cs_max(cs.drop_last()), constraint_max(cs.last()))
    }
}

/// The largest variable id used anywhere in the constraints (0 if no
/// variable occurs at all).
pub fn get_max_var(constraints: Vec<(TypeExpr, TypeExpr)>) -> (r: usize)
    ensures
        r as int == cs_max(constraints@),
{
    let mut m: usize = 0;
    let n = constraints.len();
    for i in 0..n
        invariant
            n == constraints@.len(),
            m as int == cs_max(constraints@.take(i as int)),
        decreases n - i,
    {
        let m1 = constraints[i].0.max_var();
        let m2 = constraints[i].1.max_var();
        if m1 > m {
            m = m1;
        }
        if m2 > m {
            m = m2;
        }
        proof {
            assert(constraints@.take(i + 1).drop_last() =~= constraints@.take(i as int));
            assert(constraints@.take(i + 1).last() == constraints@[i as int]);
        }
    }
    proof {
        assert(constraints@.take(n as int) =~= constraints@);
    }
    m
}

/// The rules that normalization produces from the constraints starting at
/// index `i`, with `next` as the next fresh variable id: a constraint with a
/// bare variable on either side becomes one rule for that variable, any
/// other constraint becomes two rules sharing one fresh variable.
pub open spec fn normalize_from(cs: Seq<(TypeExpr, TypeExpr)>, i: int, next: int) -> Seq<RuleExpr>
    decreases cs.len() - i,
{
    if i < 0 || i >= cs.len() {
        Seq::empty()
    } else {
        let c = cs[i];
        match c.0 {
            TypeExpr::Var(x) => seq![RuleExpr { var: x, rhs: c.1 }] + normalize_from(cs, i + 1, next),
            _ => match c.1 {
                TypeExpr::Var(y) => seq![RuleExpr { var: y, rhs: c.0 }] + normalize_from(
                    cs,
                    i + 1,
                    next,
                ),
                _ => seq![
                    RuleExpr { var: next as usize, rhs: c.0 },
                    RuleExpr { var: next as usize, rhs: c.1 },
                ] + normalize_from(cs, i + 1, next + 1),
            },
        }
    }
}

/// The full normalization of a constraint list, with fresh ids starting
/// just above the largest id in the constraints.
pub open spec fn normalize_spec(cs: Seq<(TypeExpr, TypeExpr)>) -> Seq<RuleExpr> {
    normalize_from(cs, 0, cs_max(cs) + 1)
}

/// Turn raw constraints into rules whose left-hand sides are bare
/// variables. A constraint with a variable on either side becomes one rule;
/// any other constraint is split into two rules sharing a fresh variable,
/// allocated from one counter starting above every id in the input.
pub fn normalize_constraints(constraints: &Vec<(TypeExpr, TypeExpr)>) -> (r: Vec<RuleExpr>)
    requires
        cs_max(constraints@) + 1 + constraints@.len() <= usize::MAX as int,
    ensures
        r@ == normalize_spec(constraints@),
{
    let mut next: usize = get_max_var(clone_constraints(constraints)) + 1;
    let mut out: Vec<RuleExpr> = Vec::new();
    let ghost next0: int = next as int;
    let n = constraints.len();
    for i in 0..n
        invariant
            n == constraints@.len(),
            next0 == cs_max(constraints@) + 1,
            next0 <= next as int <= next0 + i,
            next0 + n <= usize::MAX as int,
            out@ + normalize_from(constraints@, i as int, next as int) == normalize_from(
                constraints@,
                0,
                next0,
            ),
        decreases n - i,
    {
        let ghost out_before = out@;
        let ghost next_before = next as int;
        let c = &constraints[i];
        match &c.0 {
            TypeExpr::Var(x) => {
                out.push(RuleExpr { var: *x, rhs: c.1.clone() });
            },
            _ => match &c.1 {
                TypeExpr::Var(y) => {
                    out.push(RuleExpr { var: *y, rhs: c.0.clone() });
                },
                _ => {
                    out.push(RuleExpr { var: next, rhs: c.0.clone() });
                    out.push(RuleExpr { var: next, rhs: c.1.clone() });
                    next = next + 1;
                },
            },
        }
        proof {
            assert(out@ + normalize_from(constraints@, i + 1, next as int) =~= out_before
                + normalize_from(constraints@, i as int, next_before));
        }
    }
    proof {
        assert(out@ + normalize_from(constraints@, n as int, next as int) =~= out@);
    }
    out
}

} // verus!
