//! The textual form of a syntax tree: every node in parentheses, its kind
//! or operator first.
use vstd::prelude::*;
use crate::frontend::ast::{Expr, Identifier, Literal, Opcode, Stmt};
use crate::util::text::{signed_decimal, signed_string};

verus! {

/// The sign of an operator.
pub open spec fn opcode_text(op: Opcode) -> Seq<char> {
    match op {
        Opcode::Add => "+"@,
        Opcode::Sub => "-"@,
        Opcode::Mul => "*"@,
        Opcode::Div => "/"@,
        Opcode::Mod => "%"@,
        Opcode::Greater => ">"@,
        Opcode::GreaterEqual => ">="@,
        Opcode::Lesser => "<"@,
        Opcode::LesserEqual => "<="@,
        Opcode::EqualEqual => "=="@,
        Opcode::BangEqual => "!="@,
        Opcode::And => "and"@,
        Opcode::Or => "or"@,
        Opcode::Not => "not"@,
    }
}

/// The text of a literal: a number in decimal, `true` or `false`, a string
/// as it is, or `Nil`.
pub open spec fn literal_text(lit: Literal) -> Seq<char> {
    match lit {
        Literal::Number(n) => signed_decimal(n as int),
        Literal::Boolean(b) => if b {
            "true"@
        } else {
            "false"@
        },
        Literal::String(s) => s@,
        Literal::Nil => "Nil"@,
    }
}

/// The text of an expression.
pub open spec fn expr_text(e: Expr) -> Seq<char>
    decreases e, 0nat,
{
    match e {
        Expr::Id(id) => id.id@,
        Expr::Dot(id, member) => id.id@ + "."@ + expr_text(*member),
        Expr::Literal(lit) => literal_text(lit),
        Expr::List(items) => "["@ + boxed_text(items, items.len() as nat) + "]"@,
        Expr::BinaryOp(lhs, op, rhs) => "("@ + opcode_text(op) + " "@ + expr_text(*lhs) + " "@
            + expr_text(*rhs) + ")"@,
        Expr::UnaryOp(op, rhs) => "("@ + opcode_text(op) + " "@ + expr_text(*rhs) + ")"@,
        Expr::FunCall(name, args) => "("@ + name@ + ", "@ + args_text(args, args.len() as nat)
            + ")"@,
    }
}

/// The texts of the first `n` arguments, separated by a comma and a space.
pub open spec fn args_text(args: Vec<Expr>, n: nat) -> Seq<char>
    decreases args, n,
{
    if n == 0 || n > args.len() {
        Seq::empty()
    } else if n == 1 {
        expr_text(args[0])
    } else {
        args_text(args, (n - 1) as nat) + ", "@ + expr_text(args[n - 1])
    }
}

/// The texts of the first `n` items of a list, separated by a comma and a
/// space.
pub open spec fn boxed_text(items: Vec<Box<Expr>>, n: nat) -> Seq<char>
    decreases items, n,
{
    if n == 0 || n > items.len() {
        Seq::empty()
    } else if n == 1 {
        expr_text(*items[0])
    } else {
        boxed_text(items, (n - 1) as nat) + ", "@ + expr_text(*items[n - 1])
    }
}

/// The first `n` names, each in double quotes, separated by a comma and a
/// space.
pub open spec fn names_text(names: Seq<Identifier>, n: nat) -> Seq<char>
    decreases n,
{
    if n == 0 || n > names.len() {
        Seq::empty()
    } else if n == 1 {
        "\""@ + names[0].id@ + "\""@
    } else {
        names_text(names, (n - 1) as nat) + ", "@ + "\""@ + names[n - 1].id@ + "\""@
    }
}

/// The text of a statement.
pub open spec fn stmt_text(s: Stmt) -> Seq<char>
    decreases s, 0nat,
{
    match s {
        Stmt::Block(body, _) => "(["@ + stmts_text(body, body.len() as nat) + "])"@,
        Stmt::If(test, body, alter) => "(if "@ + expr_text(*test) + " "@ + stmt_text(*body) + " "@
            + stmt_text(*alter) + ")"@,
        Stmt::While(test, body) => "(while "@ + expr_text(*test) + " "@ + stmt_text(*body) + ")"@,
        Stmt::Return(Some(value)) => "(return "@ + expr_text(*value) + ")"@,
        Stmt::Return(None) => "(return Nil)"@,
        Stmt::Declaration(id) => "(define "@ + id.id@ + ")"@,
        Stmt::FunDecl(id, params, body) => "(fun "@ + id.id@ + " ["@ + names_text(
            params@,
            params.len() as nat,
        ) + "] "@ + stmt_text(*body) + ")"@,
        Stmt::Assignment(lhs, rhs) => "("@ + expr_text(*lhs) + " <- "@ + expr_text(*rhs) + ")"@,
        Stmt::Struct(name, fields) => "(struct "@ + name@ + " ["@ + names_text(
            fields@,
            fields.len() as nat,
        ) + "])"@,
    }
}

/// The texts of the first `n` statements, separated by a comma and a
/// space.
pub open spec fn stmts_text(body: Vec<Box<Stmt>>, n: nat) -> Seq<char>
    decreases body, n,
{
    if n == 0 || n > body.len() {
        Seq::empty()
    } else if n == 1 {
        stmt_text(*body[0])
    } else {
        stmts_text(body, (n - 1) as nat) + ", "@ + stmt_text(*body[n - 1])
    }
}

/// Writes the names of `names`, each in double quotes, to `out`.
fn write_names(out: &mut String, names: &Vec<Identifier>)
    ensures
        final(out)@ == old(out)@ + names_text(names@, names.len() as nat),
{
    let mut i: usize = 0;
    assert(out@ =~= old(out)@ + names_text(names@, 0));
    while i < names.len()
        invariant
            i <= names.len(),
            out@ == old(out)@ + names_text(names@, i as nat),
        decreases names.len() - i,
    {
        let ghost before = out@;
        if i > 0 {
            out.append(", ");
        }
        out.append("\"");
        out.append(names[i].id.as_str());
        out.append("\"");
        i += 1;
        assert(out@ =~= old(out)@ + names_text(names@, i as nat));
    }
}

impl Opcode {
    /// The sign of the operator.
    pub fn to_text(&self) -> (r: &'static str)
        ensures
            r@ == opcode_text(*self),
    {
        match self {
            Opcode::Add => "+",
            Opcode::Sub => "-",
            Opcode::Mul => "*",
            Opcode::Div => "/",
            Opcode::Mod => "%",
            Opcode::Greater => ">",
            Opcode::GreaterEqual => ">=",
            Opcode::Lesser => "<",
            Opcode::LesserEqual => "<=",
            Opcode::EqualEqual => "==",
            Opcode::BangEqual => "!=",
            Opcode::And => "and",
            Opcode::Or => "or",
            Opcode::Not => "not",
        }
    }
}

impl Literal {
    /// The text of the literal.
    pub fn to_text(&self) -> (r: String)
        ensures
            r@ == literal_text(*self),
    {
        match self {
            Literal::Number(n) => signed_string(*n),
            Literal::Boolean(b) => if *b {
                "true".to_owned()
            } else {
                "false".to_owned()
            },
            Literal::String(s) => s.clone(),
            Literal::Nil => "Nil".to_owned(),
        }
    }
}

impl Expr {
    /// The text of the expression: operations and calls in parentheses,
    /// the operator or the name of the function first.
    pub fn to_text(&self) -> (r: String)
        ensures
            r@ == expr_text(*self),
        decreases self,
    {
        match self {
            Expr::Id(id) => id.id.clone(),
            Expr::Dot(id, member) => {
                let mut out = id.id.clone();
                out.append(".");
                let inner = member.to_text();
                out.append(inner.as_str());
                out
            },
            Expr::Literal(lit) => lit.to_text(),
            Expr::List(items) => {
                let mut out = "[".to_owned();
                let mut i: usize = 0;
                assert(out@ =~= "["@ + boxed_text(*items, 0));
                while i < items.len()
                    invariant
                        i <= items.len(),
                        self is List,
                        self->List_0 == items,
                        out@ == "["@ + boxed_text(*items, i as nat),
                    decreases items.len() - i,
                {
                    if i > 0 {
                        out.append(", ");
                    }
                    let inner = items[i].to_text();
                    out.append(inner.as_str());
                    i += 1;
                    assert(out@ =~= "["@ + boxed_text(*items, i as nat));
                }
                out.append("]");
                out
            },
            Expr::BinaryOp(lhs, op, rhs) => {
                let mut out = "(".to_owned();
                out.append(op.to_text());
                out.append(" ");
                let left = lhs.to_text();
                out.append(left.as_str());
                out.append(" ");
                let right = rhs.to_text();
                out.append(right.as_str());
                out.append(")");
                out
            },
            Expr::UnaryOp(op, rhs) => {
                let mut out = "(".to_owned();
                out.append(op.to_text());
                out.append(" ");
                let right = rhs.to_text();
                out.append(right.as_str());
                out.append(")");
                out
            },
            Expr::FunCall(name, args) => {
                let mut out = "(".to_owned();
                out.append(name.as_str());
                out.append(", ");
                let ghost head = out@;
                let mut i: usize = 0;
                assert(out@ =~= head + args_text(*args, 0));
                while i < args.len()
                    invariant
                        i <= args.len(),
                        self is FunCall,
                        self->FunCall_1 == args,
                        head == "("@ + name@ + ", "@,
                        out@ == head + args_text(*args, i as nat),
                    decreases args.len() - i,
                {
                    if i > 0 {
                        out.append(", ");
                    }
                    let inner = args[i].to_text();
                    out.append(inner.as_str());
                    i += 1;
                    assert(out@ =~= head + args_text(*args, i as nat));
                }
                out.append(")");
                out
            },
        }
    }
}

impl Stmt {
    /// The text of the statement: every statement in parentheses, the
    /// statements of a block in brackets.
    pub fn to_text(&self) -> (r: String)
        ensures
            r@ == stmt_text(*self),
        decreases self,
    {
        match self {
            Stmt::Block(body, _) => {
                let mut out = "([".to_owned();
                let mut i: usize = 0;
                assert(out@ =~= "(["@ + stmts_text(*body, 0));
                while i < body.len()
                    invariant
                        i <= body.len(),
                        self is Block,
                        self->Block_0 == body,
                        out@ == "(["@ + stmts_text(*body, i as nat),
                    decreases body.len() - i,
                {
                    if i > 0 {
                        out.append(", ");
                    }
                    let inner = body[i].to_text();
                    out.append(inner.as_str());
                    i += 1;
                    assert(out@ =~= "(["@ + stmts_text(*body, i as nat));
                }
                out.append("])");
                out
            },
            Stmt::If(test, body, alter) => {
                let mut out = "(if ".to_owned();
                let t = test.to_text();
                out.append(t.as_str());
                out.append(" ");
                let b = body.to_text();
                out.append(b.as_str());
                out.append(" ");
                let a = alter.to_text();
                out.append(a.as_str());
                out.append(")");
                out
            },
            Stmt::While(test, body) => {
                let mut out = "(while ".to_owned();
                let t = test.to_text();
                out.append(t.as_str());
                out.append(" ");
                let b = body.to_text();
                out.append(b.as_str());
                out.append(")");
                out
            },
            Stmt::Return(Some(value)) => {
                let mut out = "(return ".to_owned();
                let v = value.to_text();
                out.append(v.as_str());
                out.append(")");
                out
            },
            Stmt::Return(None) => "(return Nil)".to_owned(),
            Stmt::Declaration(id) => {
                let mut out = "(define ".to_owned();
                out.append(id.id.as_str());
                out.append(")");
                out
            },
            Stmt::FunDecl(id, params, body) => {
                let mut out = "(fun ".to_owned();
                out.append(id.id.as_str());
                out.append(" [");
                write_names(&mut out, params);
                out.append("] ");
                let b = body.to_text();
                out.append(b.as_str());
                out.append(")");
                out
            },
            Stmt::Assignment(lhs, rhs) => {
                let mut out = "(".to_owned();
                let l = lhs.to_text();
                out.append(l.as_str());
                out.append(" <- ");
                let r = rhs.to_text();
                out.append(r.as_str());
                out.append(")");
                out
            },
            Stmt::Struct(name, fields) => {
                let mut out = "(struct ".to_owned();
                out.append(name.as_str());
                out.append(" [");
                write_names(&mut out, fields);
                out.append("])");
                out
            },
        }
    }
}

} // verus!
