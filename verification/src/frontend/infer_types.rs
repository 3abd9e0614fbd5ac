//! A first take on types: the name of the kind of value that an
//! expression computes, as far as its literals tell.
use vstd::prelude::*;
use crate::frontend::ast::{Expr, Literal, Stmt};
use crate::util::same_text;

verus! {

/// The name for a kind of value that cannot be told.
pub open spec fn unknown_type() -> Seq<char> {
    "Unknown"@
}

/// The kind of two operands taken together: their common kind, or unknown
/// where they differ.
pub open spec fn combined(a: Seq<char>, b: Seq<char>) -> Seq<char> {
    if a == b {
        a
    } else {
        unknown_type()
    }
}

/// The name of the kind of value of an expression. A literal has the kind
/// of its value; an operation has the kind that its operands share; calls
/// and variables are named for what they are.
pub open spec fn inferred(e: Expr) -> Seq<char>
    decreases e,
{
    match e {
        Expr::Literal(Literal::Number(_)) => "Number"@,
        Expr::Literal(Literal::Boolean(_)) => "Boolean"@,
        Expr::Literal(Literal::String(_)) => "String"@,
        Expr::Literal(Literal::Nil) => "Nil"@,
        Expr::UnaryOp(_, rhs) => inferred(*rhs),
        Expr::BinaryOp(lhs, _, rhs) => combined(inferred(*lhs), inferred(*rhs)),
        Expr::FunCall(_, _) => "Function"@,
        Expr::Id(_) => "Identifier"@,
        _ => unknown_type(),
    }
}

/// The name of the kind of value of `expr`.
pub fn infer_expr(expr: &Expr) -> (r: &'static str)
    ensures
        r@ == inferred(*expr),
    decreases expr, 1nat,
{
    match expr {
        Expr::Literal(Literal::Number(_)) => "Number",
        Expr::Literal(Literal::Boolean(_)) => "Boolean",
        Expr::Literal(Literal::String(_)) => "String",
        Expr::Literal(Literal::Nil) => "Nil",
        Expr::UnaryOp(_, rhs) => infer_expr(rhs),
        Expr::BinaryOp(lhs, _, rhs) => combine_type(expr),
        Expr::FunCall(_, _) => "Function",
        Expr::Id(_) => "Identifier",
        _ => "Unknown",
    }
}

/// The kind that the two operands of a binary operation share.
fn combine_type(expr: &Expr) -> (r: &'static str)
    requires
        expr is BinaryOp,
    ensures
        r@ == inferred(*expr),
    decreases expr, 0nat,
{
    match expr {
        Expr::BinaryOp(lhs, _, rhs) => {
            let a = infer_expr(lhs);
            let b = infer_expr(rhs);
            if same_text(a, b) {
                a
            } else {
                "Unknown"
            }
        },
        _ => "Unknown",
    }
}

/// Walks a statement and infers the kinds of its expressions. Nothing is
/// recorded yet, and no kind is an error.
fn infer_stmt(stmt: &Stmt) -> (r: Result<(), &'static str>)
    ensures
        r is Ok,
    decreases stmt,
{
    match stmt {
        Stmt::Assignment(lhs, rhs) => {
            let _ = infer_expr(lhs);
            let _ = infer_expr(rhs);
        },
        Stmt::FunDecl(_, _, body) => {
            let _ = infer_stmt(body);
        },
        Stmt::Block(stmts, _) => {
            let mut i: usize = 0;
            while i < stmts.len()
                invariant
                    i <= stmts.len(),
                    stmt is Block,
                    stmt->Block_0 == stmts,
                decreases stmts.len() - i,
            {
                let _ = infer_stmt(&stmts[i]);
                i += 1;
            }
        },
        Stmt::If(test, result, alternate) => {
            let _ = infer_expr(test);
            let _ = infer_stmt(result);
            let _ = infer_stmt(alternate);
        },
        Stmt::While(test, body) => {
            let _ = infer_expr(test);
            let _ = infer_stmt(body);
        },
        _ => {},
    }
    Ok(())
}

/// Infers the kinds of the expressions of a program and hands the program
/// back as it is.
pub fn infer(stmts: Stmt) -> (r: Result<Stmt, &'static str>)
    ensures
        r == Ok::<Stmt, &'static str>(stmts),
{
    let _ = infer_stmt(&stmts);
    Ok(stmts)
}

} // verus!
