use vstd::prelude::*;
use crate::token::Token;
use crate::value::Value;

verus! {

/// An expression node as the parser delivers it.  `Call` records whether the
/// parser resolved the callee as a native (host) function; `Range` carries an
/// optional step expression.
pub enum Expr {
    Assign { name: Token, value: Box<Expr> },
    Binary { left: Box<Expr>, operator: Token, right: Box<Expr> },
    Call { callee: Box<Expr>, arguments: Vec<Expr>, native: bool },
    Grouping(Box<Expr>),
    Literal(Value, usize),
    Unary { operator: Token, expression: Box<Expr> },
    Variable(Token),
    Range { min: Box<Expr>, max: Box<Expr>, step: Option<Box<Expr>>, line: usize },
    ListLit(Vec<Expr>),
}

} // verus!
