use vstd::prelude::*;
use crate::expr::Expr;
use crate::token::Token;
use crate::value::Value;

verus! {

/// A statement node as the parser delivers it.  A `Block` records the source
/// lines of its opening and closing braces; an `If` records the lines of the
/// `if` and of the optional `else`.
pub enum Stmt {
    Print(Value, usize),
    Block(Vec<Stmt>, (usize, usize)),
    Expression(Expr),
    If { condition: Expr, block: Box<Stmt>, elseblock: Option<Box<Stmt>>, lines: (usize, Option<usize>) },
    Var { name: Token, value: Option<Expr> },
    While { condition: Expr, block: Box<Stmt>, line: usize },
    For { identifier: Token, iterable: Expr, block: Box<Stmt>, line: usize },
    FnDecl { name: Token, params: Vec<Token>, body: Box<Stmt> },
    Return(Option<Expr>, usize),
}

} // verus!
