//! What the code generator emits, as functions of the syntax tree and of
//! the state of the generator.
use vstd::prelude::*;
use crate::backend::assembly_context::AsmCtxView;
use crate::backend::allocation::FIRST_ARGUMENT;
use crate::error::CompileErrorView;
use crate::frontend::ast::{Expr, Identifier, Literal, Opcode, Stmt};
use crate::util::spec_bool_to_i64;
use crate::vm::bytecode::{
    asm_data, asm_inst, asm_label, asm_local_alloc, ByteCode, MetaAsmView,
};

verus! {

/// The name of the function with which a program starts.
pub open spec fn entry_name() -> Seq<char> {
    "main"@
}

/// What the generator emits for an expression.
pub type ExprCode = Result<Seq<MetaAsmView>, CompileErrorView>;

/// The state in which the generator leaves a statement, and what it emits
/// for the statement.
pub type StmtCode = Result<(AsmCtxView, Seq<MetaAsmView>), CompileErrorView>;

/// The opcode of an operator between two operands.
pub open spec fn binary_opcode(op: Opcode) -> Option<ByteCode> {
    match op {
        Opcode::Add => Some(ByteCode::ADD),
        Opcode::Sub => Some(ByteCode::SUB),
        Opcode::Mul => Some(ByteCode::MUL),
        Opcode::Div => Some(ByteCode::DIV),
        Opcode::Mod => Some(ByteCode::MOD),
        Opcode::Greater => Some(ByteCode::GE),
        Opcode::GreaterEqual => Some(ByteCode::GEQ),
        Opcode::Lesser => Some(ByteCode::LE),
        Opcode::LesserEqual => Some(ByteCode::LEQ),
        Opcode::EqualEqual => Some(ByteCode::EQ),
        Opcode::BangEqual => Some(ByteCode::NEQ),
        Opcode::And => Some(ByteCode::AND),
        Opcode::Or => Some(ByteCode::OR),
        Opcode::Not => None,
    }
}

/// The opcode of an operator before a single operand.
pub open spec fn unary_opcode(op: Opcode) -> Option<ByteCode> {
    match op {
        Opcode::Sub => Some(ByteCode::NEG),
        Opcode::Not => Some(ByteCode::NOT),
        _ => None,
    }
}

/// The machine integer of a literal: a number stands for itself, a truth
/// value for 1 or 0, anything else for 0.
pub open spec fn literal_value(lit: Literal) -> i64 {
    match lit {
        Literal::Number(n) => n,
        Literal::Boolean(b) => spec_bool_to_i64(b),
        _ => 0,
    }
}

/// The bootstrap that every program starts with: it reserves the result
/// slot, calls `main` and halts.
pub open spec fn prelude() -> Seq<MetaAsmView> {
    seq![
        asm_data(ByteCode::ALLOC, 1),
        asm_inst(ByteCode::MARK),
        asm_label(ByteCode::LOADC, entry_name()),
        asm_inst(ByteCode::CALL),
        asm_inst(ByteCode::HALT),
    ]
}

/// The instructions that write the top of the stack to the result slot and
/// leave the function.
pub open spec fn return_value() -> Seq<MetaAsmView> {
    seq![
        asm_data(ByteCode::LOADRC, FIRST_ARGUMENT),
        asm_inst(ByteCode::STORE),
        asm_data(ByteCode::RET, 2),
    ]
}

/// The instructions that write the value below the top of the stack to the
/// heap cell `offset` cells behind the address held in the first local.
pub open spec fn store_header(value: i64, offset: i64) -> Seq<MetaAsmView> {
    seq![
        asm_data(ByteCode::LOADC, value),
        asm_data(ByteCode::LOADRC, 0),
        asm_inst(ByteCode::LOAD),
        asm_data(ByteCode::LOADC, offset),
        asm_inst(ByteCode::ADD),
        asm_inst(ByteCode::STOREH),
        asm_inst(ByteCode::POP),
    ]
}

/// The constructor of a struct with the given name, tag and size: it
/// allocates the cells on the heap, writes the tag to the first and the
/// size to the second, and returns the address of the first.
pub open spec fn constructor(id: Seq<char>, tag: i64, size: i64) -> Seq<MetaAsmView> {
    seq![MetaAsmView::Lbl(id), asm_data(ByteCode::LOADC, size), asm_inst(ByteCode::NEW)]
        + store_header(tag, 0) + store_header(size, 1) + return_value()
}

/// What the generator emits for the call of `id` once the code of the
/// arguments is known: the result slot, the arguments, the call and the
/// slide of the result over the `count` argument slots.
pub open spec fn call_sequence(id: Seq<char>, args: Seq<MetaAsmView>, count: i64) -> Seq<
    MetaAsmView,
> {
    seq![asm_data(ByteCode::ALLOC, 1)] + args + seq![
        asm_inst(ByteCode::MARK),
        asm_label(ByteCode::LOADC, id),
        asm_inst(ByteCode::CALL),
        asm_data(ByteCode::SLIDE, count),
    ]
}

/// What the generator emits for an expression, in a state of the
/// generator; `l_value` asks for the address of a variable in place of its
/// value.
pub open spec fn gen_expr(ctx: AsmCtxView, e: Expr, l_value: bool) -> ExprCode
    decreases e, 0nat,
{
    match e {
        Expr::Id(id) => match ctx.get(id.id@) {
            None => Err(CompileErrorView::UnknownIdentifier(id.id@)),
            Some(offset) => Ok(
                if l_value {
                    seq![asm_data(ByteCode::LOADRC, offset)]
                } else {
                    seq![asm_data(ByteCode::LOADRC, offset), asm_inst(ByteCode::LOAD)]
                },
            ),
        },
        Expr::Literal(lit) => Ok(seq![asm_data(ByteCode::LOADC, literal_value(lit))]),
        Expr::BinaryOp(lhs, op, rhs) => match gen_expr(ctx, *lhs, false) {
            Err(e) => Err(e),
            Ok(a) => match gen_expr(ctx, *rhs, false) {
                Err(e) => Err(e),
                Ok(b) => match binary_opcode(op) {
                    None => Err(CompileErrorView::UnsupportedOperator),
                    Some(code) => Ok(a + b + seq![asm_inst(code)]),
                },
            },
        },
        Expr::UnaryOp(op, rhs) => match gen_expr(ctx, *rhs, false) {
            Err(e) => Err(e),
            Ok(a) => match unary_opcode(op) {
                None => Err(CompileErrorView::UnsupportedOperator),
                Some(code) => Ok(a + seq![asm_inst(code)]),
            },
        },
        Expr::FunCall(id, args) => if args.len() > i64::MAX {
            Err(CompileErrorView::LimitExceeded)
        } else {
            match gen_args(ctx, args, args.len() as nat) {
                Err(e) => Err(e),
                Ok(code) => Ok(call_sequence(id@, code, args.len() as i64)),
            }
        },
        Expr::List(_) => Ok(Seq::empty()),
        Expr::Dot(_, _) => Ok(Seq::empty()),
    }
}

/// What the generator emits for the last `n` arguments of a call: the code
/// of each as a value, the last argument first.
pub open spec fn gen_args(ctx: AsmCtxView, args: Vec<Expr>, n: nat) -> ExprCode
    decreases args, n,
{
    if n == 0 || n > args.len() {
        Ok(Seq::empty())
    } else {
        match gen_args(ctx, args, (n - 1) as nat) {
            Err(e) => Err(e),
            Ok(code) => match gen_expr(ctx, args[args.len() - n], false) {
                Err(e) => Err(e),
                Ok(more) => Ok(code + more),
            },
        }
    }
}

/// The state after the first `n` parameters were recorded.
pub open spec fn gen_params(ctx: AsmCtxView, params: Seq<Identifier>, n: nat) -> Result<
    AsmCtxView,
    CompileErrorView,
>
    decreases n,
{
    if n == 0 || n > params.len() {
        Ok(ctx)
    } else {
        match gen_params(ctx, params, (n - 1) as nat) {
            Err(e) => Err(e),
            Ok(c) => if c.can_define_arg() {
                Ok(c.define_arg(params[n - 1].id@))
            } else {
                Err(CompileErrorView::LimitExceeded)
            },
        }
    }
}

/// What the generator emits for a statement, and the state in which it
/// leaves the statement.
pub open spec fn gen_stmt(ctx: AsmCtxView, s: Stmt) -> StmtCode
    decreases s, 0nat,
{
    match s {
        Stmt::Block(body, is_scope) => {
            let inner = if is_scope {
                ctx.push_scope()
            } else {
                ctx
            };
            match gen_stmts(inner, body, body.len() as nat) {
                Err(e) => Err(e),
                Ok((c, code)) => Ok(
                    (
                        if is_scope {
                            c.pop_scope()
                        } else {
                            c
                        },
                        code,
                    ),
                ),
            }
        },
        Stmt::If(test, body, alter) => if ctx.suffix + 2 > usize::MAX {
            Err(CompileErrorView::LimitExceeded)
        } else {
            let alter_label = ctx.label();
            let end_label = ctx.next_label().label();
            let inner = ctx.next_label().next_label();
            match gen_expr(inner, *test, false) {
                Err(e) => Err(e),
                Ok(t) => match gen_stmt(inner, *body) {
                    Err(e) => Err(e),
                    Ok((c1, b)) => match gen_stmt(c1, *alter) {
                        Err(e) => Err(e),
                        Ok((c2, a)) => Ok(
                            (
                                c2,
                                t + seq![asm_label(ByteCode::JUMPZ, alter_label)] + b + seq![
                                    asm_label(ByteCode::JUMP, end_label),
                                    MetaAsmView::Lbl(alter_label),
                                ] + a + seq![MetaAsmView::Lbl(end_label)],
                            ),
                        ),
                    },
                },
            }
        },
        Stmt::While(test, body) => if ctx.suffix + 2 > usize::MAX {
            Err(CompileErrorView::LimitExceeded)
        } else {
            let test_label = ctx.label();
            let end_label = ctx.next_label().label();
            let inner = ctx.next_label().next_label();
            match gen_expr(inner, *test, false) {
                Err(e) => Err(e),
                Ok(t) => match gen_stmt(inner, *body) {
                    Err(e) => Err(e),
                    Ok((c1, b)) => Ok(
                        (
                            c1,
                            seq![MetaAsmView::Lbl(test_label)] + t + seq![
                                asm_label(ByteCode::JUMPZ, end_label),
                            ] + b + seq![
                                asm_label(ByteCode::JUMP, test_label),
                                MetaAsmView::Lbl(end_label),
                            ],
                        ),
                    ),
                },
            }
        },
        Stmt::Return(Some(value)) => match gen_expr(ctx, *value, false) {
            Err(e) => Err(e),
            Ok(v) => Ok((ctx, v + return_value())),
        },
        Stmt::Return(None) => if ctx.args + 2 > i64::MAX {
            Err(CompileErrorView::LimitExceeded)
        } else {
            Ok((ctx, seq![asm_data(ByteCode::RET, (ctx.args + 2) as i64)]))
        },
        Stmt::Declaration(id) => if !ctx.has_level() {
            Err(CompileErrorView::NoScope)
        } else if ctx.can_define() {
            Ok((ctx.define(id.id@), Seq::empty()))
        } else {
            Err(CompileErrorView::LimitExceeded)
        },
        Stmt::FunDecl(id, params, body) => {
            match gen_params(ctx.add_fun(id.id@, params.len()), params@, params.len() as nat) {
                Err(e) => Err(e),
                Ok(c0) => match gen_stmt(c0, *body) {
                    Err(e) => Err(e),
                    Ok((c1, b)) => Ok(
                        (
                            c1.pop_fun(),
                            seq![
                                MetaAsmView::Lbl(id.id@),
                                asm_local_alloc(ByteCode::ALLOC, id.id@),
                            ] + b + seq![asm_data(ByteCode::RET, 2)],
                        ),
                    ),
                },
            }
        },
        Stmt::Assignment(lhs, rhs) => match gen_expr(ctx, *rhs, false) {
            Err(e) => Err(e),
            Ok(r) => match gen_expr(ctx, *lhs, true) {
                Err(e) => Err(e),
                Ok(l) => Ok(
                    (ctx, r + l + seq![asm_inst(ByteCode::STORE), asm_inst(ByteCode::POP)]),
                ),
            },
        },
        Stmt::Struct(id, _) => match ctx.get_esta_struct(id@) {
            None => Err(CompileErrorView::StructNotFound(id@)),
            Some(layout) => if layout.size > i64::MAX || layout.tag > i64::MAX {
                Err(CompileErrorView::LimitExceeded)
            } else {
                Ok(
                    (
                        ctx.add_fun(id@, 0).pop_fun(),
                        constructor(id@, layout.tag as i64, layout.size as i64),
                    ),
                )
            },
        },
    }
}

/// What the generator emits for the first `n` statements of a block, one
/// after the other.
pub open spec fn gen_stmts(ctx: AsmCtxView, body: Vec<Box<Stmt>>, n: nat) -> StmtCode
    decreases body, n,
{
    if n == 0 || n > body.len() {
        Ok((ctx, Seq::empty()))
    } else {
        match gen_stmts(ctx, body, (n - 1) as nat) {
            Err(e) => Err(e),
            Ok((c, code)) => match gen_stmt(c, *body[n - 1]) {
                Err(e) => Err(e),
                Ok((c1, more)) => Ok((c1, code + more)),
            },
        }
    }
}

/// The whole stream of a program: the bootstrap, then the code of the
/// program's body, generated from the initial state.
pub open spec fn gen_program(ctx: AsmCtxView, s: Stmt) -> StmtCode {
    match gen_stmt(ctx, s) {
        Err(e) => Err(e),
        Ok((c, code)) => Ok((c, prelude() + code)),
    }
}

} // verus!
