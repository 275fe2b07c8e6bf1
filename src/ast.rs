use vstd::prelude::*;

verus! {

#[derive(Debug, Clone, Copy, PartialEq, Eq, Structural)]
pub enum UnaryOperator {
    Negative,
    Not,
}

#[derive(Debug, Clone, Copy, PartialEq, Eq, Structural)]
pub enum BinaryOperator {
    Add,
    Subtract,
    Multiply,
    Divide,
    Modulo,
    Equal,
    NotEqual,
    LessThan,
    GreaterThan,
    LessThanOrEqual,
    GreaterThanOrEqual,
    And,
    Or,
}

/// An expression. A number is kept as the literal text that the source wrote
/// (digits, optionally a point and more digits); its value is the binary64
/// number nearest to that decimal.
#[derive(Debug, PartialEq)]
pub enum Expr {
    Number(String),
    Boolean(bool),
    Identifier(String),
    UnaryOp(UnaryOperator, Box<Expr>),
    BinaryOp(Box<Expr>, BinaryOperator, Box<Expr>),
    Call(Box<Expr>, Box<Vec<Expr>>),
}

/// The mathematical form of an expression.
pub enum Tree {
    Number(Seq<char>),
    Boolean(bool),
    Identifier(Seq<char>),
    Unary(UnaryOperator, Box<Tree>),
    Binary(Box<Tree>, BinaryOperator, Box<Tree>),
    Call(Box<Tree>, Seq<Tree>),
}

/// The tree that an expression stands for.
pub open spec fn tree(e: Expr) -> Tree
    decreases e,
    via tree_decreases
{
    match e {
        Expr::Number(s) => Tree::Number(s@),
        Expr::Boolean(b) => Tree::Boolean(b),
        Expr::Identifier(s) => Tree::Identifier(s@),
        Expr::UnaryOp(op, x) => Tree::Unary(op, Box::new(tree(*x))),
        Expr::BinaryOp(l, op, r) => Tree::Binary(Box::new(tree(*l)), op, Box::new(tree(*r))),
        Expr::Call(c, args) => Tree::Call(
            Box::new(tree(*c)),
            Seq::new(
                args.len() as nat,
                |i: int|
                    if 0 <= i < args.len() {
                        tree(args@[i])
                    } else {
                        Tree::Boolean(false)
                    },
            ),
        ),
    }
}

#[via_fn]
proof fn tree_decreases(e: Expr) {
    broadcast use vstd::std_specs::vec::axiom_vec_decreases_to_view;

    if let Expr::Call(c, args) = e {
        assert forall|i: int| 0 <= i < args.len() implies decreases_to!(e => args@[i]) by {
            assert(decreases_to!(args => args@));
            assert(decreases_to!(args@ => args@[i]));
        }
    }
}

#[derive(Debug, PartialEq)]
pub enum Stmt {
    Expr(Expr),
}

/// A program: its statements in order.
pub type Program = Vec<Stmt>;

} // verus!
