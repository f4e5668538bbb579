//! The expression tree of the query language, together with its ghost mirror
//! used by all specifications.

use vstd::prelude::*;

verus! {

/// A query expression: a finite, acyclic tree built once by the parser and
/// never mutated afterwards.
#[derive(PartialEq, Eq, Debug)]
pub enum Expr {
    /// A boolean literal, `true` or `false`.
    LBool(bool),
    /// A signed integer literal.
    LInt(i32),
    /// A set literal `{ e1, e2, ... }`, members in source order.
    LSet(Vec<Expr>),
    /// A dot-segmented identifier such as `oxidation_states.notable`.
    Symbol(String),
    /// A binary operator applied to two sub-expressions.
    BinaryOp(BinaryOperator, Box<Expr>, Box<Expr>),
    /// A unary operator applied to one sub-expression.
    UnaryOp(UnaryOperator, Box<Expr>),
}

/// All binary operators, loosest-binding first.
#[derive(PartialEq, Eq, Debug, Clone, Copy)]
pub enum BinaryOperator {
    Or,
    And,
    Equal,
    NotEqual,
    LessThan,
    LessEqual,
    GreaterThan,
    GreaterEqual,
    InSet,
    Plus,
    Minus,
    Multiply,
    Divide,
}

/// The two prefix operators.
#[derive(PartialEq, Eq, Debug, Clone, Copy)]
pub enum UnaryOperator {
    Not,
    Minus,
}

/// The mathematical value of an [`Expr`]: the same tree with `Vec` replaced
/// by `Seq` and `String` by `Seq<char>`. Contracts speak about this type.
#[verifier::ext_equal]
pub enum GExpr {
    LBool(bool),
    LInt(i32),
    LSet(Seq<GExpr>),
    Symbol(Seq<char>),
    BinaryOp(BinaryOperator, Box<GExpr>, Box<GExpr>),
    UnaryOp(UnaryOperator, Box<GExpr>),
}

/// The ghost mirror of one expression.
pub open spec fn view_expr(e: Expr) -> GExpr
    decreases e,
{
    match e {
        Expr::LBool(b) => GExpr::LBool(b),
        Expr::LInt(i) => GExpr::LInt(i),
        Expr::LSet(els) => GExpr::LSet(view_exprs(els@)),
        Expr::Symbol(s) => GExpr::Symbol(s@),
        Expr::BinaryOp(op, l, r) => GExpr::BinaryOp(op, Box::new(view_expr(*l)), Box::new(view_expr(*r))),
        Expr::UnaryOp(op, e1) => GExpr::UnaryOp(op, Box::new(view_expr(*e1))),
    }
}

/// The ghost mirrors of a sequence of expressions, in order.
pub open spec fn view_exprs(s: Seq<Expr>) -> Seq<GExpr>
    decreases s,
{
    if s.len() == 0 {
        Seq::empty()
    } else {
        view_exprs(s.drop_last()).push(view_expr(s.last()))
    }
}

impl View for Expr {
    type V = GExpr;

    open spec fn view(&self) -> GExpr {
        view_expr(*self)
    }
}

impl Clone for Expr {
    /// A clone mirrors the original exactly.
    fn clone(&self) -> (r: Self)
        ensures
            r@ == self@,
        decreases *self,
    {
        match self {
            Expr::LBool(b) => Expr::LBool(*b),
            Expr::LInt(i) => Expr::LInt(*i),
            Expr::LSet(els) => {
                let mut copies: Vec<Expr> = Vec::new();
                let mut i: usize = 0;
                while i < els.len()
                    invariant
                        *self == Expr::LSet(*els),
                        i <= els@.len(),
                        copies@.len() == i as int,
                        forall|j: int| 0 <= j < i ==> view_expr(copies@[j]) == view_expr(els@[j]),
                    decreases els@.len() - i,
                {
                    proof {
                        assert(*els == self->LSet_0);
                        assert(decreases_to!(*self => self->LSet_0));
                        assert(decreases_to!(*els => els@));
                        assert(decreases_to!(els@ => els@[i as int]));
                        assert(decreases_to!(*self => els@[i as int]));
                    }
                    let c = els[i].clone();
                    copies.push(c);
                    i = i + 1;
                }
                proof {
                    lemma_view_exprs(els@);
                    lemma_view_exprs(copies@);
                    assert(view_exprs(copies@) =~= view_exprs(els@));
                }
                Expr::LSet(copies)
            },
            Expr::Symbol(s) => Expr::Symbol(s.clone()),
            Expr::BinaryOp(op, l, r) => Expr::BinaryOp(
                *op,
                Box::new((**l).clone()),
                Box::new((**r).clone()),
            ),
            Expr::UnaryOp(op, e1) => Expr::UnaryOp(*op, Box::new((**e1).clone())),
        }
    }
}

/// `view_exprs` is the element-wise mirror.
pub proof fn lemma_view_exprs(s: Seq<Expr>)
    ensures
        view_exprs(s).len() == s.len(),
        forall|i: int| 0 <= i < s.len() ==> view_exprs(s)[i] == view_expr(s[i]),
    decreases s,
{
    if s.len() > 0 {
        lemma_view_exprs(s.drop_last());
    }
}

} // verus!
