//! The tree of a parsed formula and its mathematical model.

use vstd::prelude::*;

verus! {

/// One of the four arithmetic operators.
#[derive(Clone, Copy, Debug, PartialEq, Eq, Structural)]
pub enum Operator {
    Add,
    Sub,
    Mul,
    Div,
}

impl Operator {
    /// The character that writes this operator.
    pub open spec fn symbol(self) -> char {
        match self {
            Operator::Add => '+',
            Operator::Sub => '-',
            Operator::Mul => '*',
            Operator::Div => '/',
        }
    }

    /// The character that writes this operator.
    pub fn to_char(&self) -> (c: char)
        ensures
            c == self.symbol(),
    {
        match self {
            Operator::Add => '+',
            Operator::Sub => '-',
            Operator::Mul => '*',
            Operator::Div => '/',
        }
    }

    /// The operator that `c` writes, if it writes one.
    pub open spec fn of_symbol(c: char) -> Option<Operator> {
        if c == '+' {
            Some(Operator::Add)
        } else if c == '-' {
            Some(Operator::Sub)
        } else if c == '*' {
            Some(Operator::Mul)
        } else if c == '/' {
            Some(Operator::Div)
        } else {
            None
        }
    }

    /// The operator that `c` writes, if it writes one.
    pub fn from_char(c: char) -> (r: Option<Operator>)
        ensures
            r == Operator::of_symbol(c),
    {
        if c == '+' {
            Some(Operator::Add)
        } else if c == '-' {
            Some(Operator::Sub)
        } else if c == '*' {
            Some(Operator::Mul)
        } else if c == '/' {
            Some(Operator::Div)
        } else {
            None
        }
    }
}

/// A parsed formula. Each node owns its children: the value is a tree.
///
/// A literal keeps its numeral as written; the kernel reads it when the
/// formula is evaluated.
#[derive(Debug, PartialEq, Eq)]
pub enum Expr {
    Literal(String),
    Identifier(String),
    FunctionCall(String, Vec<Expr>),
    BinaryOp { op: Operator, left: Box<Expr>, right: Box<Expr> },
}

/// The mathematical model of an [`Expr`]: the same tree over sequences.
pub enum Formula {
    Literal(Seq<char>),
    Identifier(Seq<char>),
    FunctionCall(Seq<char>, Seq<Formula>),
    BinaryOp { op: Operator, left: Box<Formula>, right: Box<Formula> },
}

impl Expr {
    /// The model of this tree.
    pub open spec fn formula(self) -> Formula
        decreases self,
    {
        match self {
            Expr::Literal(text) => Formula::Literal(text@),
            Expr::Identifier(name) => Formula::Identifier(name@),
            Expr::FunctionCall(name, args) => Formula::FunctionCall(name@, formulas(args@)),
            Expr::BinaryOp { op, left, right } => Formula::BinaryOp {
                op,
                left: Box::new(left.formula()),
                right: Box::new(right.formula()),
            },
        }
    }
}

/// The models of a sequence of trees, in order.
pub open spec fn formulas(exprs: Seq<Expr>) -> Seq<Formula>
    decreases exprs,
{
    Seq::new(
        exprs.len(),
        |i: int|
            if 0 <= i < exprs.len() {
                exprs[i].formula()
            } else {
                Formula::Literal(Seq::empty())
            },
    )
}

impl Clone for Expr {
    fn clone(&self) -> (copy: Self)
        ensures
            copy@ == self@,
        decreases self,
    {
        match self {
            Expr::Literal(text) => Expr::Literal(text.clone()),
            Expr::Identifier(name) => Expr::Identifier(name.clone()),
            Expr::FunctionCall(name, args) => {
                let mut copies: Vec<Expr> = Vec::new();
                let mut done: usize = 0;
                while done < args.len()
                    invariant
                        done <= args.len(),
                        decreases_to!(self => args),
                        copies.len() == done,
                        forall|i: int| 0 <= i < done ==> (#[trigger] copies[i])@ == args[i]@,
                    decreases args.len() - done,
                {
                    copies.push(args[done].clone());
                    done += 1;
                }
                assert(formulas(copies@) =~= formulas(args@));
                Expr::FunctionCall(name.clone(), copies)
            },
            Expr::BinaryOp { op, left, right } => Expr::BinaryOp {
                op: *op,
                left: Box::new((**left).clone()),
                right: Box::new((**right).clone()),
            },
        }
    }
}

impl View for Expr {
    type V = Formula;

    open spec fn view(&self) -> Formula {
        self.formula()
    }
}

} // verus!
