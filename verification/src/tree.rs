//! The derivation-tree builder: a syntax-directed walk over the
//! expression tree that produces one derivation node per subexpression
//! and accumulates equality constraints between type expressions, minting
//! fresh type variables from a session counter.

use vstd::prelude::*;

use crate::ast::AstNode;
use crate::rules::{
    cs_below, lemma_below_mono, lemma_cs_below_concat, lemma_cs_below_mono, lemma_cs_below_one,
    BuildError, TypeExpr,
};

verus! {

// ---------------------------------------------------------------------------
// The typing environment
// ---------------------------------------------------------------------------

/// The typing environment Γ: variable names mapped to their assumed
/// types. Extension copies the environment; a later binding of one name
/// shadows an earlier one.
#[derive(Debug)]
pub struct TypeEnv {
    pairs: Vec<(String, TypeExpr)>,
}

/// The mapping that a list of bindings denotes: later pairs win.
pub open spec fn env_map(s: Seq<(String, TypeExpr)>) -> Map<Seq<char>, TypeExpr>
    decreases s.len(),
{
    if s.len() == 0 {
        Map::empty()
    } else {
        env_map(s.drop_last()).insert(s.last().0@, s.last().1)
    }
}

impl View for TypeEnv {
    type V = Map<Seq<char>, TypeExpr>;

    closed spec fn view(&self) -> Map<Seq<char>, TypeExpr> {
        env_map(self.pairs@)
    }
}

impl Clone for TypeEnv {
    /// A clone denotes the same mapping.
    fn clone(&self) -> (res: Self)
        ensures
            res@ == self@,
    {
        let mut pairs: Vec<(String, TypeExpr)> = Vec::new();
        let n = self.pairs.len();
        for i in 0..n
            invariant
                n == self.pairs@.len(),
                pairs@ == self.pairs@.take(i as int),
            decreases n - i,
        {
            let p = &self.pairs[i];
            pairs.push((p.0.clone(), p.1.clone()));
            proof {
                assert(pairs@ =~= self.pairs@.take(i + 1));
            }
        }
        proof {
            assert(self.pairs@.take(n as int) =~= self.pairs@);
        }
        TypeEnv { pairs }
    }
}

impl TypeEnv {
    /// The empty environment.
    pub fn new() -> (r: TypeEnv)
        ensures
            r@ == Map::<Seq<char>, TypeExpr>::empty(),
    {
        TypeEnv { pairs: Vec::new() }
    }

    /// Bind `name` to `t`, shadowing any earlier binding of `name`.
    pub fn insert(&mut self, name: String, t: TypeExpr)
        ensures
            final(self)@ == old(self)@.insert(name@, t),
    {
        self.pairs.push((name, t));
        proof {
            assert(self.pairs@.drop_last() =~= old(self).pairs@);
        }
    }

    /// Look the name up; the latest binding wins.
    pub fn get(&self, name: &String) -> (r: Option<&TypeExpr>)
        ensures
            match r {
                Some(t) => self@.contains_key(name@) && *t == self@[name@],
                None => !self@.contains_key(name@),
            },
    {
        let n = self.pairs.len();
        let mut i: usize = n;
        proof {
            assert(self.pairs@.take(n as int) =~= self.pairs@);
        }
        while i > 0
            invariant
                i <= n,
                n == self.pairs@.len(),
                self@.contains_key(name@) == env_map(self.pairs@.take(i as int)).contains_key(
                    name@,
                ),
                self@.contains_key(name@) ==> self@[name@] == env_map(
                    self.pairs@.take(i as int),
                )[name@],
            decreases i,
        {
            i = i - 1;
            let p = &self.pairs[i];
            proof {
                assert(self.pairs@.take(i + 1).drop_last() =~= self.pairs@.take(i as int));
                assert(self.pairs@.take(i + 1).last() == self.pairs@[i as int]);
            }
            if p.0 == *name {
                return Some(&p.1);
            }
        }
        proof {
            assert(self.pairs@.take(0) =~= Seq::<(String, TypeExpr)>::empty());
        }
        None
    }
}

// ---------------------------------------------------------------------------
// What the builder does, as mathematics
// ---------------------------------------------------------------------------

/// The number of nodes of the expression.
pub open spec fn ast_size(ast: AstNode) -> nat
    decreases ast,
{
    match ast {
        AstNode::Var(_) => 1,
        AstNode::Abs { var: _, body } => 1 + ast_size(*body),
        AstNode::App { fun, arg } => 1 + ast_size(*fun) + ast_size(*arg),
        AstNode::IsZero(e) => 1 + ast_size(*e),
        AstNode::Int(_) => 1,
        AstNode::True => 1,
        AstNode::False => 1,
        AstNode::BinOp { op: _, lhs, rhs } => 1 + ast_size(*lhs) + ast_size(*rhs),
        AstNode::IfThenElse { cond, then, else_ } => 1 + ast_size(*cond) + ast_size(*then)
            + ast_size(*else_),
        AstNode::Tuple { fst, snd } => 1 + ast_size(*fst) + ast_size(*snd),
        AstNode::Fst(e) => 1 + ast_size(*e),
        AstNode::Snd(e) => 1 + ast_size(*e),
    }
}

/// The first variable, in the builder's traversal order, that no
/// enclosing abstraction binds — the name on which the build fails.
pub open spec fn first_unbound(ast: AstNode, dom: Set<Seq<char>>) -> Option<Seq<char>>
    decreases ast,
{
    match ast {
        AstNode::Var(x) => if dom.contains(x@) {
            None
        } else {
            Some(x@)
        },
        AstNode::Abs { var, body } => first_unbound(*body, dom.insert(var@)),
        AstNode::App { fun, arg } => match first_unbound(*fun, dom) {
            Some(e) => Some(e),
            None => first_unbound(*arg, dom),
        },
        AstNode::IsZero(e) => first_unbound(*e, dom),
        AstNode::Int(_) => None,
        AstNode::True => None,
        AstNode::False => None,
        AstNode::BinOp { op: _, lhs, rhs } => match first_unbound(*lhs, dom) {
            Some(e) => Some(e),
            None => first_unbound(*rhs, dom),
        },
        AstNode::IfThenElse { cond, then, else_ } => match first_unbound(*cond, dom) {
            Some(e) => Some(e),
            None => match first_unbound(*then, dom) {
                Some(e) => Some(e),
                None => first_unbound(*else_, dom),
            },
        },
        AstNode::Tuple { fst, snd } => match first_unbound(*fst, dom) {
            Some(e) => Some(e),
            None => first_unbound(*snd, dom),
        },
        AstNode::Fst(e) => first_unbound(*e, dom),
        AstNode::Snd(e) => first_unbound(*e, dom),
    }
}

/// Every variable of the expression is bound, under the names in `dom`.
pub open spec fn well_scoped(ast: AstNode, dom: Set<Seq<char>>) -> bool {
    first_unbound(ast, dom) is None
}

/// What the builder does for `ast` against the expected type `t` in
/// environment `g` with counter `n`: the constraints it appends, the
/// counter it leaves behind, and the name of the unbound variable it
/// stops on, if any. On a failure, the constraints appended up to the
/// failure point are kept and nothing later is appended. Fresh variables
/// are the counter values in order.
pub open spec fn emit(ast: AstNode, g: Map<Seq<char>, TypeExpr>, t: TypeExpr, n: int) -> (
    Seq<(TypeExpr, TypeExpr)>,
    int,
    Option<Seq<char>>,
)
    decreases ast,
{
    match ast {
        AstNode::Var(x) => if g.dom().contains(x@) {
            (seq![(g[x@], t)], n, None)
        } else {
            (Seq::empty(), n, Some(x@))
        },
        AstNode::Abs { var, body } => match t {
            TypeExpr::Function(sig, tau) => emit(*body, g.insert(var@, *sig), *tau, n),
            _ => {
                let sig = TypeExpr::Var(n as usize);
                let tau = TypeExpr::Var((n + 1) as usize);
                let rb = emit(*body, g.insert(var@, sig), tau, n + 2);
                (
                    seq![(t, TypeExpr::Function(Box::new(sig), Box::new(tau)))] + rb.0,
                    rb.1,
                    rb.2,
                )
            },
        },
        AstNode::App { fun, arg } => {
            let sig = TypeExpr::Var(n as usize);
            let rf = emit(*fun, g, TypeExpr::Function(Box::new(sig), Box::new(t)), n + 1);
            if rf.2 is Some {
                rf
            } else {
                let ra = emit(*arg, g, sig, rf.1);
                (rf.0 + ra.0, ra.1, ra.2)
            }
        },
        AstNode::IsZero(e) => {
            let re = emit(*e, g, TypeExpr::Int, n);
            if re.2 is Some {
                re
            } else {
                (re.0 + seq![(t, TypeExpr::Bool)], re.1, None)
            }
        },
        AstNode::Int(_) => (seq![(t, TypeExpr::Int)], n, None),
        AstNode::True => (seq![(t, TypeExpr::Bool)], n, None),
        AstNode::False => (seq![(t, TypeExpr::Bool)], n, None),
        AstNode::BinOp { op: _, lhs, rhs } => {
            let rl = emit(*lhs, g, TypeExpr::Int, n);
            if rl.2 is Some {
                (seq![(t, TypeExpr::Int)] + rl.0, rl.1, rl.2)
            } else {
                let rr = emit(*rhs, g, TypeExpr::Int, rl.1);
                (seq![(t, TypeExpr::Int)] + rl.0 + rr.0, rr.1, rr.2)
            }
        },
        AstNode::IfThenElse { cond, then, else_ } => {
            let rc = emit(*cond, g, TypeExpr::Bool, n);
            if rc.2 is Some {
                rc
            } else {
                let rt = emit(*then, g, t, rc.1);
                if rt.2 is Some {
                    (rc.0 + rt.0, rt.1, rt.2)
                } else {
                    let re = emit(*else_, g, t, rt.1);
                    (rc.0 + rt.0 + re.0, re.1, re.2)
                }
            }
        },
        AstNode::Tuple { fst, snd } => match t {
            TypeExpr::Tuple(a, b) => {
                let rf = emit(*fst, g, *a, n);
                if rf.2 is Some {
                    rf
                } else {
                    let rs = emit(*snd, g, *b, rf.1);
                    (rf.0 + rs.0, rs.1, rs.2)
                }
            },
            _ => {
                let a = TypeExpr::Var(n as usize);
                let b = TypeExpr::Var((n + 1) as usize);
                let rf = emit(*fst, g, a, n + 2);
                if rf.2 is Some {
                    (
                        seq![(t, TypeExpr::Tuple(Box::new(a), Box::new(b)))] + rf.0,
                        rf.1,
                        rf.2,
                    )
                } else {
                    let rs = emit(*snd, g, b, rf.1);
                    (
                        seq![(t, TypeExpr::Tuple(Box::new(a), Box::new(b)))] + rf.0 + rs.0,
                        rs.1,
                        rs.2,
                    )
                }
            },
        },
        AstNode::Fst(e) => emit(
            *e,
            g,
            TypeExpr::Tuple(Box::new(t), Box::new(TypeExpr::Var(n as usize))),
            n + 1,
        ),
        AstNode::Snd(e) => emit(
            *e,
            g,
            TypeExpr::Tuple(Box::new(TypeExpr::Var(n as usize)), Box::new(t)),
            n + 1,
        ),
    }
}

/// The type written into the derivation node: the expected type, except
/// that `iszero` is always typed `Bool` and a tuple against a non-tuple
/// expectation carries the freshly synthesized pair type.
pub open spec fn result_type(ast: AstNode, t: TypeExpr, n: int) -> TypeExpr {
    match ast {
        AstNode::IsZero(_) => TypeExpr::Bool,
        AstNode::Tuple { fst: _, snd: _ } => match t {
            TypeExpr::Tuple(_, _) => t,
            _ => TypeExpr::Tuple(
                Box::new(TypeExpr::Var(n as usize)),
                Box::new(TypeExpr::Var((n + 1) as usize)),
            ),
        },
        _ => t,
    }
}

/// The immediate subexpressions, in the builder's traversal order.
pub open spec fn sub_exprs(ast: AstNode) -> Seq<AstNode> {
    match ast {
        AstNode::Var(_) => Seq::empty(),
        AstNode::Abs { var: _, body } => seq![*body],
        AstNode::App { fun, arg } => seq![*fun, *arg],
        AstNode::IsZero(e) => seq![*e],
        AstNode::Int(_) => Seq::empty(),
        AstNode::True => Seq::empty(),
        AstNode::False => Seq::empty(),
        AstNode::BinOp { op: _, lhs, rhs } => seq![*lhs, *rhs],
        AstNode::IfThenElse { cond, then, else_ } => seq![*cond, *then, *else_],
        AstNode::Tuple { fst, snd } => seq![*fst, *snd],
        AstNode::Fst(e) => seq![*e],
        AstNode::Snd(e) => seq![*e],
    }
}

// ---------------------------------------------------------------------------
// The derivation tree
// ---------------------------------------------------------------------------

/// One node of the typing-derivation tree: the environment the judgement
/// was made in, the judgement itself, and the derivations of the
/// subexpressions, in order.
pub struct Tree {
    pub gamma: TypeEnv,
    pub expr: (AstNode, TypeExpr),
    pub constraints: Vec<Tree>,
}

/// The tree is the derivation that building its expression against the
/// expected type `t` with session counter `n` produces: the node's own
/// judgement carries `result_type`, and each child is the derivation of
/// the corresponding subexpression, in the builder's order, against the
/// expected type and environment that its typing rule prescribes, with
/// the counter threaded through `emit` exactly as the builder leaves it.
pub open spec fn tree_conforms(tree: Tree, t: TypeExpr, n: int) -> bool
    decreases tree,
{
    &&& tree.expr.1 == result_type(tree.expr.0, t, n)
    &&& tree.constraints@.len() == sub_exprs(tree.expr.0).len()
    &&& forall|i: int| 0 <= i < tree.constraints@.len() ==> (#[trigger] tree.constraints@[i]).expr.0
        == sub_exprs(tree.expr.0)[i]
    &&& match tree.expr.0 {
        AstNode::Var(_) => true,
        AstNode::Abs { var, body } => {
            let c = tree.constraints@[0];
            match t {
                TypeExpr::Function(sig, tau) => c.gamma@ == tree.gamma@.insert(var@, *sig)
                    && tree_conforms(c, *tau, n),
                _ => c.gamma@ == tree.gamma@.insert(var@, TypeExpr::Var(n as usize))
                    && tree_conforms(c, TypeExpr::Var((n + 1) as usize), n + 2),
            }
        },
        AstNode::App { fun, arg } => {
            let c0 = tree.constraints@[0];
            let c1 = tree.constraints@[1];
            let te = TypeExpr::Function(Box::new(TypeExpr::Var(n as usize)), Box::new(t));
            &&& c0.gamma@ == tree.gamma@ && c1.gamma@ == tree.gamma@
            &&& tree_conforms(c0, te, n + 1)
            &&& tree_conforms(
                c1,
                TypeExpr::Var(n as usize),
                emit(*fun, tree.gamma@, te, n + 1).1,
            )
        },
        AstNode::IsZero(_) => {
            let c = tree.constraints@[0];
            c.gamma@ == tree.gamma@ && tree_conforms(c, TypeExpr::Int, n)
        },
        AstNode::Int(_) => true,
        AstNode::True => true,
        AstNode::False => true,
        AstNode::BinOp { op: _, lhs, rhs: _ } => {
            let c0 = tree.constraints@[0];
            let c1 = tree.constraints@[1];
            &&& c0.gamma@ == tree.gamma@ && c1.gamma@ == tree.gamma@
            &&& tree_conforms(c0, TypeExpr::Int, n)
            &&& tree_conforms(c1, TypeExpr::Int, emit(*lhs, tree.gamma@, TypeExpr::Int, n).1)
        },
        AstNode::IfThenElse { cond, then, else_: _ } => {
            let c0 = tree.constraints@[0];
            let c1 = tree.constraints@[1];
            let c2 = tree.constraints@[2];
            let nc = emit(*cond, tree.gamma@, TypeExpr::Bool, n).1;
            &&& c0.gamma@ == tree.gamma@ && c1.gamma@ == tree.gamma@ && c2.gamma@ == tree.gamma@
            &&& tree_conforms(c0, TypeExpr::Bool, n)
            &&& tree_conforms(c1, t, nc)
            &&& tree_conforms(c2, t, emit(*then, tree.gamma@, t, nc).1)
        },
        AstNode::Tuple { fst, snd: _ } => {
            let c0 = tree.constraints@[0];
            let c1 = tree.constraints@[1];
            &&& c0.gamma@ == tree.gamma@ && c1.gamma@ == tree.gamma@
            &&& match t {
                TypeExpr::Tuple(a, b) => tree_conforms(c0, *a, n) && tree_conforms(
                    c1,
                    *b,
                    emit(*fst, tree.gamma@, *a, n).1,
                ),
                _ => {
                    let a = TypeExpr::Var(n as usize);
                    let b = TypeExpr::Var((n + 1) as usize);
                    tree_conforms(c0, a, n + 2) && tree_conforms(
                        c1,
                        b,
                        emit(*fst, tree.gamma@, a, n + 2).1,
                    )
                },
            }
        },
        AstNode::Fst(_) => {
            let c = tree.constraints@[0];
            c.gamma@ == tree.gamma@ && tree_conforms(
                c,
                TypeExpr::Tuple(Box::new(t), Box::new(TypeExpr::Var(n as usize))),
                n + 1,
            )
        },
        AstNode::Snd(_) => {
            let c = tree.constraints@[0];
            c.gamma@ == tree.gamma@ && tree_conforms(
                c,
                TypeExpr::Tuple(Box::new(TypeExpr::Var(n as usize)), Box::new(t)),
                n + 1,
            )
        },
    }
}

// ---------------------------------------------------------------------------
// The inference session
// ---------------------------------------------------------------------------

/// One inference session: the fresh-variable counter and the constraints
/// accumulated so far. The counter is owned by the session alone and
/// never reused, so all variables minted in one session are pairwise
/// distinct.
#[derive(Debug)]
pub struct TypeInference {
    pub typ_num: usize,
    pub constraints: Vec<(TypeExpr, TypeExpr)>,
}

impl TypeInference {
    /// Build the derivation tree and the constraints for `ast`, typing
    /// the whole expression with the goal variable `Var(0)`.
    pub fn infer(ast: AstNode) -> (r: Result<(Tree, Vec<(TypeExpr, TypeExpr)>), BuildError>)
        requires
            1 + 2 * ast_size(ast) <= usize::MAX,
        ensures
            match r {
                Ok(p) => {
                    &&& well_scoped(ast, Set::empty())
                    &&& p.1@ == emit(
                        ast,
                        Map::empty(),
                        TypeExpr::Var(0),
                        1,
                    ).0
                    &&& p.0.expr.0 == ast
                    &&& p.0.expr.1 == result_type(ast, TypeExpr::Var(0), 1)
                    &&& p.0.gamma@ == Map::<Seq<char>, TypeExpr>::empty()
                    &&& tree_conforms(p.0, TypeExpr::Var(0), 1)
                },
                Err(e) => !well_scoped(ast, Set::empty()) && (e matches
                    BuildError::UnboundVariable(s) && Some(s@) == first_unbound(
                    ast,
                    Set::empty(),
                )),
            },
    {
        let gamma = TypeEnv::new();
        let mut session = TypeInference { typ_num: 0, constraints: Vec::new() };
        let start_t = session.new_typ();
        proof {
            assert(Map::<Seq<char>, TypeExpr>::empty().dom() =~= Set::<Seq<char>>::empty());
        }
        match session.build_tree(ast, gamma, start_t) {
            Ok(tree) => Ok((tree, session.constraints)),
            Err(e) => Err(e),
        }
    }

    /// Build the derivation tree and the constraints for `ast`; a
    /// synonym of `infer` for callers that construct a session.
    pub fn new(ast: AstNode) -> (r: Result<(Tree, Vec<(TypeExpr, TypeExpr)>), BuildError>)
        requires
            1 + 2 * ast_size(ast) <= usize::MAX,
        ensures
            match r {
                Ok(p) => {
                    &&& well_scoped(ast, Set::empty())
                    &&& p.1@ == emit(
                        ast,
                        Map::empty(),
                        TypeExpr::Var(0),
                        1,
                    ).0
                    &&& p.0.expr.0 == ast
                    &&& p.0.expr.1 == result_type(ast, TypeExpr::Var(0), 1)
                    &&& p.0.gamma@ == Map::<Seq<char>, TypeExpr>::empty()
                    &&& tree_conforms(p.0, TypeExpr::Var(0), 1)
                },
                Err(e) => !well_scoped(ast, Set::empty()) && (e matches
                    BuildError::UnboundVariable(s) && Some(s@) == first_unbound(
                    ast,
                    Set::empty(),
                )),
            },
    {
        Self::infer(ast)
    }

    /// Mint a fresh type variable and advance the session counter.
    pub fn new_typ(&mut self) -> (r: TypeExpr)
        requires
            old(self).typ_num < usize::MAX,
        ensures
            r == TypeExpr::Var(old(self).typ_num),
            final(self).typ_num == old(self).typ_num + 1,
            final(self).constraints == old(self).constraints,
    {
        let t = TypeExpr::Var(self.typ_num);
        self.typ_num = self.typ_num + 1;
        t
    }

    /// Append the constraint that the two types are equal.
    pub fn add_constraint(&mut self, a: &TypeExpr, b: &TypeExpr)
        ensures
            final(self).constraints@ == old(self).constraints@.push((*a, *b)),
            final(self).typ_num == old(self).typ_num,
    {
        self.constraints.push((a.clone(), b.clone()));
    }

    /// Build the derivation node for `ast` in `gamma` against the
    /// expected type `t`, appending this node's constraints exactly as
    /// `emit` says and leaving the counter where `emit` says.
    #[verifier::rlimit(100)]
    pub fn build_tree(&mut self, ast: AstNode, gamma: TypeEnv, t: TypeExpr) -> (r: Result<
        Tree,
        BuildError,
    >)
        requires
            old(self).typ_num + 2 * ast_size(ast) <= usize::MAX,
        ensures
            final(self).typ_num >= old(self).typ_num,
            final(self).typ_num <= old(self).typ_num + 2 * ast_size(ast),
            old(self).constraints@.is_prefix_of(final(self).constraints@),
            final(self).constraints@ == old(self).constraints@ + emit(
                ast,
                gamma@,
                t,
                old(self).typ_num as int,
            ).0,
            final(self).typ_num as int == emit(ast, gamma@, t, old(self).typ_num as int).1,
            r is Ok <==> emit(ast, gamma@, t, old(self).typ_num as int).2 is None,
            match r {
                Ok(tree) => {
                    &&& well_scoped(ast, gamma@.dom())
                    &&& tree.expr.0 == ast
                    &&& tree.expr.1 == result_type(ast, t, old(self).typ_num as int)
                    &&& tree.gamma@ == gamma@
                    &&& tree_conforms(tree, t, old(self).typ_num as int)
                },
                Err(e) => !well_scoped(ast, gamma@.dom()) && (e matches
                    BuildError::UnboundVariable(s) && Some(s@) == first_unbound(
                    ast,
                    gamma@.dom(),
                )),
            },
        decreases ast,
    {
        let my_ast = ast.clone();
        match my_ast {
            AstNode::Var(var) => {
                match gamma.get(&var) {
                    Some(tv) => {
                        self.add_constraint(tv, &t);
                        proof {
                            assert(self.constraints@ =~= old(self).constraints@ + emit(
                                ast,
                                gamma@,
                                t,
                                old(self).typ_num as int,
                            ).0);
                        }
                        Ok(Tree { gamma, expr: (ast, t), constraints: Vec::new() })
                    },
                    None => Err(BuildError::UnboundVariable(var)),
                }
            },
            AstNode::Abs { var, body } => {
                let ghost n0 = self.typ_num as int;
                match &t {
                    TypeExpr::Function(sig, tau) => {
                        let mut new_gamma = gamma.clone();
                        new_gamma.insert(var, (**sig).clone());
                        proof {
                            assert(new_gamma@.dom() =~= gamma@.dom().insert(var@));
                        }
                        let tau_c = (**tau).clone();
                        match self.build_tree(*body, new_gamma, tau_c) {
                            Ok(body_tree) => {
                                let mut children: Vec<Tree> = Vec::new();
                                children.push(body_tree);
                                let tree = Tree { gamma, expr: (ast, t), constraints: children };
                                proof {
                                    assert(sub_exprs(tree.expr.0) =~= seq![
                                        tree.constraints@[0].expr.0,
                                    ]);
                                }
                                Ok(tree)
                            },
                            Err(e) => Err(e),
                        }
                    },
                    _ => {
                        let sig = self.new_typ();
                        let tau = self.new_typ();
                        let new_t = TypeExpr::Function(
                            Box::new(sig.clone()),
                            Box::new(tau.clone()),
                        );
                        self.add_constraint(&t, &new_t);
                        let ghost mid = self.constraints@;
                        let mut new_gamma = gamma.clone();
                        new_gamma.insert(var, sig);
                        proof {
                            assert(new_gamma@.dom() =~= gamma@.dom().insert(var@));
                        }
                        match self.build_tree(*body, new_gamma, tau) {
                            Ok(body_tree) => {
                                proof {
                                    assert(self.constraints@ =~= old(self).constraints@ + emit(
                                        ast,
                                        gamma@,
                                        t,
                                        n0,
                                    ).0);
                                }
                                let mut children: Vec<Tree> = Vec::new();
                                children.push(body_tree);
                                let tree = Tree { gamma, expr: (ast, t), constraints: children };
                                proof {
                                    assert(sub_exprs(tree.expr.0) =~= seq![
                                        tree.constraints@[0].expr.0,
                                    ]);
                                }
                                Ok(tree)
                            },
                            Err(e) => Err(e),
                        }
                    },
                }
            },
            AstNode::App { fun, arg } => {
                let ghost n0 = self.typ_num as int;
                let sig = self.new_typ();
                let new_t = TypeExpr::Function(Box::new(sig.clone()), Box::new(t.clone()));
                match self.build_tree(*fun, gamma.clone(), new_t) {
                    Ok(fun_tree) => {
                        match self.build_tree(*arg, gamma.clone(), sig) {
                            Ok(arg_tree) => {
                                proof {
                                    assert(self.constraints@ =~= old(self).constraints@ + emit(
                                        ast,
                                        gamma@,
                                        t,
                                        n0,
                                    ).0);
                                }
                                let mut children: Vec<Tree> = Vec::new();
                                children.push(fun_tree);
                                children.push(arg_tree);
                                let tree = Tree { gamma, expr: (ast, t), constraints: children };
                                proof {
                                    assert(sub_exprs(tree.expr.0) =~= seq![
                                        tree.constraints@[0].expr.0,
                                        tree.constraints@[1].expr.0,
                                    ]);
                                }
                                Ok(tree)
                            },
                            Err(e) => Err(e),
                        }
                    },
                    Err(e) => Err(e),
                }
            },
            AstNode::IsZero(expr) => {
                let ghost n0 = self.typ_num as int;
                match self.build_tree(*expr, gamma.clone(), TypeExpr::Int) {
                    Ok(expr_tree) => {
                        self.add_constraint(&t, &TypeExpr::Bool);
                        proof {
                            assert(self.constraints@ =~= old(self).constraints@ + emit(
                                ast,
                                gamma@,
                                t,
                                n0,
                            ).0);
                        }
                        let mut children: Vec<Tree> = Vec::new();
                        children.push(expr_tree);
                        let tree = Tree {
                            gamma,
                            expr: (ast, TypeExpr::Bool),
                            constraints: children,
                        };
                        proof {
                            assert(sub_exprs(tree.expr.0) =~= seq![tree.constraints@[0].expr.0]);
                        }
                        Ok(tree)
                    },
                    Err(e) => Err(e),
                }
            },
            AstNode::Int(_) => {
                self.add_constraint(&t, &TypeExpr::Int);
                proof {
                    assert(self.constraints@ =~= old(self).constraints@ + emit(
                        ast,
                        gamma@,
                        t,
                        old(self).typ_num as int,
                    ).0);
                }
                Ok(Tree { gamma, expr: (ast, t), constraints: Vec::new() })
            },
            AstNode::True => {
                self.add_constraint(&t, &TypeExpr::Bool);
                proof {
                    assert(self.constraints@ =~= old(self).constraints@ + emit(
                        ast,
                        gamma@,
                        t,
                        old(self).typ_num as int,
                    ).0);
                }
                Ok(Tree { gamma, expr: (ast, t), constraints: Vec::new() })
            },
            AstNode::False => {
                self.add_constraint(&t, &TypeExpr::Bool);
                proof {
                    assert(self.constraints@ =~= old(self).constraints@ + emit(
                        ast,
                        gamma@,
                        t,
                        old(self).typ_num as int,
                    ).0);
                }
                Ok(Tree { gamma, expr: (ast, t), constraints: Vec::new() })
            },
            AstNode::BinOp { op: _, lhs, rhs } => {
                let ghost n0 = self.typ_num as int;
                self.add_constraint(&t, &TypeExpr::Int);
                match self.build_tree(*lhs, gamma.clone(), TypeExpr::Int) {
                    Ok(lhs_tree) => {
                        match self.build_tree(*rhs, gamma.clone(), TypeExpr::Int) {
                            Ok(rhs_tree) => {
                                proof {
                                    assert(self.constraints@ =~= old(self).constraints@ + emit(
                                        ast,
                                        gamma@,
                                        t,
                                        n0,
                                    ).0);
                                }
                                let mut children: Vec<Tree> = Vec::new();
                                children.push(lhs_tree);
                                children.push(rhs_tree);
                                let tree = Tree { gamma, expr: (ast, t), constraints: children };
                                proof {
                                    assert(sub_exprs(tree.expr.0) =~= seq![
                                        tree.constraints@[0].expr.0,
                                        tree.constraints@[1].expr.0,
                                    ]);
                                }
                                Ok(tree)
                            },
                            Err(e) => Err(e),
                        }
                    },
                    Err(e) => Err(e),
                }
            },
            AstNode::IfThenElse { cond, then, else_ } => {
                let ghost n0 = self.typ_num as int;
                match self.build_tree(*cond, gamma.clone(), TypeExpr::Bool) {
                    Ok(cond_tree) => {
                        match self.build_tree(*then, gamma.clone(), t.clone()) {
                            Ok(then_tree) => {
                                match self.build_tree(*else_, gamma.clone(), t.clone()) {
                                    Ok(else_tree) => {
                                        proof {
                                            assert(self.constraints@ =~= old(self).constraints@
                                                + emit(ast, gamma@, t, n0).0);
                                        }
                                        let mut children: Vec<Tree> = Vec::new();
                                        children.push(cond_tree);
                                        children.push(then_tree);
                                        children.push(else_tree);
                                        let tree = Tree {
                                            gamma,
                                            expr: (ast, t),
                                            constraints: children,
                                        };
                                        proof {
                                            assert(sub_exprs(tree.expr.0) =~= seq![
                                                tree.constraints@[0].expr.0,
                                                tree.constraints@[1].expr.0,
                                                tree.constraints@[2].expr.0,
                                            ]);
                                        }
                                        Ok(tree)
                                    },
                                    Err(e) => Err(e),
                                }
                            },
                            Err(e) => Err(e),
                        }
                    },
                    Err(e) => Err(e),
                }
            },
            AstNode::Tuple { fst, snd } => {
                let ghost n0 = self.typ_num as int;
                match &t {
                    TypeExpr::Tuple(a, b) => {
                        let a_c = (**a).clone();
                        let b_c = (**b).clone();
                        match self.build_tree(*fst, gamma.clone(), a_c) {
                            Ok(fst_tree) => {
                                match self.build_tree(*snd, gamma.clone(), b_c) {
                                    Ok(snd_tree) => {
                                        proof {
                                            assert(self.constraints@ =~= old(self).constraints@
                                                + emit(ast, gamma@, t, n0).0);
                                        }
                                        let mut children: Vec<Tree> = Vec::new();
                                        children.push(fst_tree);
                                        children.push(snd_tree);
                                        let tree = Tree {
                                            gamma,
                                            expr: (ast, t),
                                            constraints: children,
                                        };
                                        proof {
                                            assert(sub_exprs(tree.expr.0) =~= seq![
                                                tree.constraints@[0].expr.0,
                                                tree.constraints@[1].expr.0,
                                            ]);
                                        }
                                        Ok(tree)
                                    },
                                    Err(e) => Err(e),
                                }
                            },
                            Err(e) => Err(e),
                        }
                    },
                    _ => {
                        let a = self.new_typ();
                        let b = self.new_typ();
                        let new_t = TypeExpr::Tuple(Box::new(a.clone()), Box::new(b.clone()));
                        self.add_constraint(&t, &new_t);
                        match self.build_tree(*fst, gamma.clone(), a) {
                            Ok(fst_tree) => {
                                match self.build_tree(*snd, gamma.clone(), b) {
                                    Ok(snd_tree) => {
                                        proof {
                                            assert(self.constraints@ =~= old(self).constraints@
                                                + emit(ast, gamma@, t, n0).0);
                                        }
                                        let mut children: Vec<Tree> = Vec::new();
                                        children.push(fst_tree);
                                        children.push(snd_tree);
                                        let tree = Tree {
                                            gamma,
                                            expr: (ast, new_t),
                                            constraints: children,
                                        };
                                        proof {
                                            assert(sub_exprs(tree.expr.0) =~= seq![
                                                tree.constraints@[0].expr.0,
                                                tree.constraints@[1].expr.0,
                                            ]);
                                        }
                                        Ok(tree)
                                    },
                                    Err(e) => Err(e),
                                }
                            },
                            Err(e) => Err(e),
                        }
                    },
                }
            },
            AstNode::Fst(expr) => {
                let b = self.new_typ();
                let new_t = TypeExpr::Tuple(Box::new(t.clone()), Box::new(b));
                match self.build_tree(*expr, gamma.clone(), new_t) {
                    Ok(expr_tree) => {
                        let mut children: Vec<Tree> = Vec::new();
                        children.push(expr_tree);
                        let tree = Tree { gamma, expr: (ast, t), constraints: children };
                        proof {
                            assert(sub_exprs(tree.expr.0) =~= seq![tree.constraints@[0].expr.0]);
                        }
                        Ok(tree)
                    },
                    Err(e) => Err(e),
                }
            },
            AstNode::Snd(expr) => {
                let a = self.new_typ();
                let new_t = TypeExpr::Tuple(Box::new(a), Box::new(t.clone()));
                match self.build_tree(*expr, gamma.clone(), new_t) {
                    Ok(expr_tree) => {
                        let mut children: Vec<Tree> = Vec::new();
                        children.push(expr_tree);
                        let tree = Tree { gamma, expr: (ast, t), constraints: children };
                        proof {
                            assert(sub_exprs(tree.expr.0) =~= seq![tree.constraints@[0].expr.0]);
                        }
                        Ok(tree)
                    },
                    Err(e) => Err(e),
                }
            },
        }
    }
}

/// Every type in the environment's range keeps its variables strictly
/// below `n`.
pub open spec fn env_below(g: Map<Seq<char>, TypeExpr>, n: int) -> bool {
    forall|k: Seq<char>| g.dom().contains(k) ==> (#[trigger] g[k]).below(n)
}

/// An environment bound stays a bound when it grows.
pub proof fn lemma_env_below_mono(g: Map<Seq<char>, TypeExpr>, n: int, m: int)
    requires
        env_below(g, n),
        n <= m,
    ensures
        env_below(g, m),
{
    assert forall|k: Seq<char>| g.dom().contains(k) implies (#[trigger] g[k]).below(m) by {
        lemma_below_mono(g[k], n, m);
    }
}

/// What the builder emits stays within the session's counter: the final
/// counter moves forward by at most two ids per node, at most one
/// constraint is appended per node, and every type in the appended
/// constraints keeps its variables below the final counter.
pub proof fn lemma_emit_bounds(ast: AstNode, g: Map<Seq<char>, TypeExpr>, t: TypeExpr, n: int)
    requires
        t.below(n),
        env_below(g, n),
        0 <= n,
        n + 2 * ast_size(ast) <= usize::MAX as int,
    ensures
        n <= emit(ast, g, t, n).1 <= n + 2 * ast_size(ast),
        emit(ast, g, t, n).0.len() <= ast_size(ast),
        cs_below(emit(ast, g, t, n).0, emit(ast, g, t, n).1),
    decreases ast,
{
    let r = emit(ast, g, t, n);
    match ast {
        AstNode::Var(x) => {
            if g.dom().contains(x@) {
                assert(g[x@].below(n));
                lemma_cs_below_one((g[x@], t), n);
            }
        },
        AstNode::Abs { var, body } => {
            match t {
                TypeExpr::Function(sig, tau) => {
                    let g2 = g.insert(var@, *sig);
                    assert(env_below(g2, n)) by {
                        assert forall|k: Seq<char>| g2.dom().contains(k) implies (
                        #[trigger] g2[k]).below(n) by {
                            if k == var@ {
                            } else {
                                assert(g[k].below(n));
                            }
                        }
                    }
                    assert(g2.dom() =~= g.dom().insert(var@));
                    lemma_emit_bounds(*body, g2, *tau, n);
                },
                _ => {
                    let sig = TypeExpr::Var(n as usize);
                    let tau = TypeExpr::Var((n + 1) as usize);
                    let g2 = g.insert(var@, sig);
                    lemma_env_below_mono(g, n, n + 2);
                    assert(env_below(g2, n + 2)) by {
                        assert forall|k: Seq<char>| g2.dom().contains(k) implies (
                        #[trigger] g2[k]).below(n + 2) by {
                            if k == var@ {
                            } else {
                                assert(g.dom().contains(k));
                                assert(g[k].below(n + 2));
                            }
                        }
                    }
                    assert(g2.dom() =~= g.dom().insert(var@));
                    lemma_emit_bounds(*body, g2, tau, n + 2);
                    let rb = emit(*body, g2, tau, n + 2);
                    lemma_below_mono(t, n, rb.1);
                    assert(sig.below(rb.1) && tau.below(rb.1));
                    lemma_cs_below_one(
                        (t, TypeExpr::Function(Box::new(sig), Box::new(tau))),
                        rb.1,
                    );
                    lemma_cs_below_concat(
                        seq![(t, TypeExpr::Function(Box::new(sig), Box::new(tau)))],
                        rb.0,
                        rb.1,
                    );
                },
            }
        },
        AstNode::App { fun, arg } => {
            let sig = TypeExpr::Var(n as usize);
            let new_t = TypeExpr::Function(Box::new(sig), Box::new(t));
            lemma_below_mono(t, n, n + 1);
            lemma_env_below_mono(g, n, n + 1);
            assert(sig.below(n + 1));
            lemma_emit_bounds(*fun, g, new_t, n + 1);
            let rf = emit(*fun, g, new_t, n + 1);
            if rf.2 is None {
                lemma_below_mono(sig, n + 1, rf.1);
                lemma_env_below_mono(g, n + 1, rf.1);
                lemma_emit_bounds(*arg, g, sig, rf.1);
                let ra = emit(*arg, g, sig, rf.1);
                lemma_cs_below_mono(rf.0, rf.1, ra.1);
                lemma_cs_below_concat(rf.0, ra.0, ra.1);
            }
        },
        AstNode::IsZero(e) => {
            lemma_emit_bounds(*e, g, TypeExpr::Int, n);
            let re = emit(*e, g, TypeExpr::Int, n);
            if re.2 is None {
                lemma_below_mono(t, n, re.1);
                lemma_cs_below_one((t, TypeExpr::Bool), re.1);
                lemma_cs_below_concat(re.0, seq![(t, TypeExpr::Bool)], re.1);
            }
        },
        AstNode::Int(_) => {
            lemma_cs_below_one((t, TypeExpr::Int), n);
        },
        AstNode::True => {
            lemma_cs_below_one((t, TypeExpr::Bool), n);
        },
        AstNode::False => {
            lemma_cs_below_one((t, TypeExpr::Bool), n);
        },
        AstNode::BinOp { op: _, lhs, rhs } => {
            lemma_emit_bounds(*lhs, g, TypeExpr::Int, n);
            let rl = emit(*lhs, g, TypeExpr::Int, n);
            if rl.2 is Some {
                lemma_below_mono(t, n, rl.1);
                lemma_cs_below_one((t, TypeExpr::Int), rl.1);
                lemma_cs_below_concat(seq![(t, TypeExpr::Int)], rl.0, rl.1);
            } else {
                lemma_env_below_mono(g, n, rl.1);
                lemma_emit_bounds(*rhs, g, TypeExpr::Int, rl.1);
                let rr = emit(*rhs, g, TypeExpr::Int, rl.1);
                lemma_below_mono(t, n, rr.1);
                lemma_cs_below_one((t, TypeExpr::Int), rr.1);
                lemma_cs_below_mono(rl.0, rl.1, rr.1);
                lemma_cs_below_concat(seq![(t, TypeExpr::Int)], rl.0, rr.1);
                lemma_cs_below_concat(seq![(t, TypeExpr::Int)] + rl.0, rr.0, rr.1);
            }
        },
        AstNode::IfThenElse { cond, then, else_ } => {
            lemma_emit_bounds(*cond, g, TypeExpr::Bool, n);
            let rc = emit(*cond, g, TypeExpr::Bool, n);
            if rc.2 is None {
                lemma_below_mono(t, n, rc.1);
                lemma_env_below_mono(g, n, rc.1);
                lemma_emit_bounds(*then, g, t, rc.1);
                let rt = emit(*then, g, t, rc.1);
                if rt.2 is Some {
                    lemma_cs_below_mono(rc.0, rc.1, rt.1);
                    lemma_cs_below_concat(rc.0, rt.0, rt.1);
                } else {
                    lemma_below_mono(t, rc.1, rt.1);
                    lemma_env_below_mono(g, rc.1, rt.1);
                    lemma_emit_bounds(*else_, g, t, rt.1);
                    let re = emit(*else_, g, t, rt.1);
                    lemma_cs_below_mono(rc.0, rc.1, re.1);
                    lemma_cs_below_mono(rt.0, rt.1, re.1);
                    lemma_cs_below_concat(rc.0, rt.0, re.1);
                    lemma_cs_below_concat(rc.0 + rt.0, re.0, re.1);
                }
            }
        },
        AstNode::Tuple { fst, snd } => {
            match t {
                TypeExpr::Tuple(a, b) => {
                    lemma_emit_bounds(*fst, g, *a, n);
                    let rf = emit(*fst, g, *a, n);
                    if rf.2 is None {
                        lemma_below_mono(*b, n, rf.1);
                        lemma_env_below_mono(g, n, rf.1);
                        lemma_emit_bounds(*snd, g, *b, rf.1);
                        let rs = emit(*snd, g, *b, rf.1);
                        lemma_cs_below_mono(rf.0, rf.1, rs.1);
                        lemma_cs_below_concat(rf.0, rs.0, rs.1);
                    }
                },
                _ => {
                    let a = TypeExpr::Var(n as usize);
                    let b = TypeExpr::Var((n + 1) as usize);
                    lemma_env_below_mono(g, n, n + 2);
                    assert(a.below(n + 2) && b.below(n + 2));
                    lemma_emit_bounds(*fst, g, a, n + 2);
                    let rf = emit(*fst, g, a, n + 2);
                    if rf.2 is Some {
                        lemma_below_mono(t, n, rf.1);
                        assert(a.below(rf.1) && b.below(rf.1));
                        lemma_cs_below_one((t, TypeExpr::Tuple(Box::new(a), Box::new(b))), rf.1);
                        lemma_cs_below_concat(
                            seq![(t, TypeExpr::Tuple(Box::new(a), Box::new(b)))],
                            rf.0,
                            rf.1,
                        );
                    } else {
                        lemma_below_mono(b, n + 2, rf.1);
                        lemma_env_below_mono(g, n + 2, rf.1);
                        lemma_emit_bounds(*snd, g, b, rf.1);
                        let rs = emit(*snd, g, b, rf.1);
                        lemma_below_mono(t, n, rs.1);
                        assert(a.below(rs.1) && b.below(rs.1));
                        lemma_cs_below_one((t, TypeExpr::Tuple(Box::new(a), Box::new(b))), rs.1);
                        lemma_cs_below_mono(rf.0, rf.1, rs.1);
                        lemma_cs_below_concat(
                            seq![(t, TypeExpr::Tuple(Box::new(a), Box::new(b)))],
                            rf.0,
                            rs.1,
                        );
                        lemma_cs_below_concat(
                            seq![(t, TypeExpr::Tuple(Box::new(a), Box::new(b)))] + rf.0,
                            rs.0,
                            rs.1,
                        );
                    }
                },
            }
        },
        AstNode::Fst(e) => {
            let new_t = TypeExpr::Tuple(Box::new(t), Box::new(TypeExpr::Var(n as usize)));
            lemma_below_mono(t, n, n + 1);
            lemma_env_below_mono(g, n, n + 1);
            assert(TypeExpr::Var(n as usize).below(n + 1));
            lemma_emit_bounds(*e, g, new_t, n + 1);
        },
        AstNode::Snd(e) => {
            let new_t = TypeExpr::Tuple(Box::new(TypeExpr::Var(n as usize)), Box::new(t));
            lemma_below_mono(t, n, n + 1);
            lemma_env_below_mono(g, n, n + 1);
            assert(TypeExpr::Var(n as usize).below(n + 1));
            lemma_emit_bounds(*e, g, new_t, n + 1);
        },
    }
}

} // verus!
