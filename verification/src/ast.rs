//! The expression tree of the source language.

use vstd::prelude::*;

verus! {

/// A binary arithmetic operator.
#[derive(Debug, Clone, Copy, PartialEq, Eq, Structural)]
pub enum BinOp {
    Plus,
    Mult,
}

/// One node of the expression tree produced by the concrete-syntax parser.
#[derive(Debug)]
pub enum AstNode {
    Var(String),
    Abs { var: String, body: Box<AstNode> },
    App { fun: Box<AstNode>, arg: Box<AstNode> },
    IsZero(Box<AstNode>),
    Int(i32),
    True,
    False,
    BinOp { op: BinOp, lhs: Box<AstNode>, rhs: Box<AstNode> },
    IfThenElse { cond: Box<AstNode>, then: Box<AstNode>, else_: Box<AstNode> },
    Tuple { fst: Box<AstNode>, snd: Box<AstNode> },
    Fst(Box<AstNode>),
    Snd(Box<AstNode>),
}

impl Clone for AstNode {
    /// A clone is equal to the original, node for node.
    fn clone(&self) -> (res: Self)
        ensures
            res == *self,
        decreases self,
    {
        match self {
            AstNode::Var(v) => AstNode::Var(v.clone()),
            AstNode::Abs { var, body } => AstNode::Abs {
                var: var.clone(),
                body: Box::new((**body).clone()),
            },
            AstNode::App { fun, arg } => AstNode::App {
                fun: Box::new((**fun).clone()),
                arg: Box::new((**arg).clone()),
            },
            AstNode::IsZero(e) => AstNode::IsZero(Box::new((**e).clone())),
            AstNode::Int(n) => AstNode::Int(*n),
            AstNode::True => AstNode::True,
            AstNode::False => AstNode::False,
            AstNode::BinOp { op, lhs, rhs } => AstNode::BinOp {
                op: op.clone(),
                lhs: Box::new((**lhs).clone()),
                rhs: Box::new((**rhs).clone()),
            },
            AstNode::IfThenElse { cond, then, else_ } => AstNode::IfThenElse {
                cond: Box::new((**cond).clone()),
                then: Box::new((**then).clone()),
                else_: Box::new((**else_).clone()),
            },
            AstNode::Tuple { fst, snd } => AstNode::Tuple {
                fst: Box::new((**fst).clone()),
                snd: Box::new((**snd).clone()),
            },
            AstNode::Fst(e) => AstNode::Fst(Box::new((**e).clone())),
            AstNode::Snd(e) => AstNode::Snd(Box::new((**e).clone())),
        }
    }
}

impl AstNode {
    /// The short name of the typing rule that applies at this node.
    pub fn current_rule_str(&self) -> (r: String)
        ensures
            r@ == self.rule_name(),
    {
        let s: &str = match self {
            AstNode::Var(_) => "Var",
            AstNode::Abs { .. } => "Abs",
            AstNode::App { .. } => "App",
            AstNode::IsZero(_) => "iszero",
            AstNode::Int(_) => "Int",
            AstNode::True => "True",
            AstNode::False => "False",
            AstNode::BinOp { .. } => "BinOp",
            AstNode::IfThenElse { .. } => "if",
            AstNode::Tuple { .. } => "tuple",
            AstNode::Fst(_) => "fst",
            AstNode::Snd(_) => "snd",
        };
        s.to_owned()
    }

    /// The rule name as a mathematical sequence of characters.
    pub open spec fn rule_name(self) -> Seq<char> {
        match self {
            AstNode::Var(_) => "Var"@,
            AstNode::Abs { .. } => "Abs"@,
            AstNode::App { .. } => "App"@,
            AstNode::IsZero(_) => "iszero"@,
            AstNode::Int(_) => "Int"@,
            AstNode::True => "True"@,
            AstNode::False => "False"@,
            AstNode::BinOp { .. } => "BinOp"@,
            AstNode::IfThenElse { .. } => "if"@,
            AstNode::Tuple { .. } => "tuple"@,
            AstNode::Fst(_) => "fst"@,
            AstNode::Snd(_) => "snd"@,
        }
    }
}

} // verus!
