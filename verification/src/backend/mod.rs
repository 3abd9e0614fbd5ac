//! The compiler back end: from a syntax tree to linked code.
//!
//! The generator walks the tree and emits a stream of instructions whose
//! labels and counts of locals are still symbolic; the link pass then
//! resolves them.
use vstd::prelude::*;
use crate::backend::allocation::FIRST_ARGUMENT;
use crate::backend::assembly_context::AsmCtx;
use crate::backend::codegen::{
    binary_opcode, call_sequence, constructor, gen_args, gen_expr, gen_params, gen_program,
    gen_stmt, gen_stmts, literal_value, prelude, return_value, store_header, unary_opcode,
};
use crate::backend::program::{link, Program, ProgramView};
use crate::backend::assembly_context::{data_segment, AsmCtxView};
use crate::error::{CompileError, CompileErrorView};
use crate::frontend::ast::{Expr, Identifier, Literal, Opcode, Stmt};
use crate::middleend::MetaData;
use crate::util::bool_to_i64;
use crate::vm::bytecode::{
    asm_data, asm_inst, asm_label, asm_local_alloc, stream_view, ByteCode, MetaAsm, MetaAsmView,
    MetaInst,
};

pub mod allocation;
pub mod allocator;
pub mod assembly_context;
pub mod calls;
pub mod codegen;
pub mod entry;
pub mod evaluation;
pub mod guarantees;
pub mod labels;
pub mod limits;
pub mod linking;
pub mod program;

verus! {

/// The program that a syntax tree and its struct table compile to.
pub open spec fn compiled(s: Stmt, md: Seq<crate::frontend::ast::EstaStructView>) -> Result<
    ProgramView,
    CompileErrorView,
> {
    match gen_program(AsmCtxView::top_level(md), s) {
        Err(e) => Err(e),
        Ok((ctx, stream)) => match link(stream, ctx.locals) {
            Err(e) => Err(e),
            Ok(code) => Ok(ProgramView { code, data_segment: data_segment(ctx.md) }),
        },
    }
}

/// Whether `r` is the outcome `expected`, seen through views.
pub open spec fn emitted(
    r: Result<Vec<MetaAsm>, CompileError>,
    expected: Result<Seq<MetaAsmView>, CompileErrorView>,
) -> bool {
    match expected {
        Ok(code) => r is Ok && stream_view(r->Ok_0@) == code,
        Err(e) => r is Err && r->Err_0@ == e,
    }
}

/// Appends an item to a stream.
fn emit(out: &mut Vec<MetaAsm>, item: MetaAsm)
    ensures
        stream_view(final(out)@) == stream_view(old(out)@).push(item@),
{
    out.push(item);
    assert(stream_view(out@) =~= stream_view(old(out)@).push(item@));
}

/// Appends a stream to a stream.
fn emit_all(out: &mut Vec<MetaAsm>, more: Vec<MetaAsm>)
    ensures
        stream_view(final(out)@) == stream_view(old(out)@) + stream_view(more@),
{
    let mut rest = more;
    out.append(&mut rest);
    assert(stream_view(out@) =~= stream_view(old(out)@) + stream_view(more@));
}

/// A stream without items.
fn empty_stream() -> (r: Vec<MetaAsm>)
    ensures
        stream_view(r@) == Seq::<MetaAsmView>::empty(),
{
    let r: Vec<MetaAsm> = Vec::new();
    assert(stream_view(r@) =~= Seq::<MetaAsmView>::empty());
    r
}

fn inst(op: ByteCode) -> (r: MetaAsm)
    ensures
        r@ == asm_inst(op),
{
    MetaAsm::Inst(MetaInst::new_inst(op))
}

fn data(op: ByteCode, d: i64) -> (r: MetaAsm)
    ensures
        r@ == asm_data(op, d),
{
    MetaAsm::Inst(MetaInst::new_data(op, d))
}

fn label(op: ByteCode, l: String) -> (r: MetaAsm)
    ensures
        r@ == asm_label(op, l@),
{
    MetaAsm::Inst(MetaInst::new_label(op, l))
}

fn local_alloc(op: ByteCode, f: String) -> (r: MetaAsm)
    ensures
        r@ == asm_local_alloc(op, f@),
{
    MetaAsm::Inst(MetaInst::new_local_alloc(op, f))
}

fn mark(l: String) -> (r: MetaAsm)
    ensures
        r@ == MetaAsmView::Lbl(l@),
{
    MetaAsm::Lbl(l)
}

/// The opcode of an operator between two operands, if it can stand there.
pub fn binary_bytecode(op: Opcode) -> (r: Option<ByteCode>)
    ensures
        r == binary_opcode(op),
{
    match op {
        Opcode::Add => Some(ByteCode::ADD),
        Opcode::Sub => Some(ByteCode::SUB),
        Opcode::Mul => Some(ByteCode::MUL),
        Opcode::Div => Some(ByteCode::DIV),
        Opcode::Mod => Some(ByteCode::MOD),
        Opcode::Greater => Some(ByteCode::GE),
        Opcode::GreaterEqual => Some(ByteCode::GEQ),
        Opcode::Lesser => Some(ByteCode::LE),
        Opcode::LesserEqual => Some(ByteCode::LEQ),
        Opcode::EqualEqual => Some(ByteCode::EQ),
        Opcode::BangEqual => Some(ByteCode::NEQ),
        Opcode::And => Some(ByteCode::AND),
        Opcode::Or => Some(ByteCode::OR),
        Opcode::Not => None,
    }
}

/// The opcode of an operator before a single operand, if it can stand
/// there.
pub fn unary_bytecode(op: Opcode) -> (r: Option<ByteCode>)
    ensures
        r == unary_opcode(op),
{
    match op {
        Opcode::Sub => Some(ByteCode::NEG),
        Opcode::Not => Some(ByteCode::NOT),
        _ => None,
    }
}

/// Puts the bootstrap that calls `main` in front of a stream.
pub fn bootstrap_startup(insts: Vec<MetaAsm>) -> (r: Vec<MetaAsm>)
    ensures
        stream_view(r@) == prelude() + stream_view(insts@),
{
    let mut out = empty_stream();
    emit(&mut out, data(ByteCode::ALLOC, 1));
    emit(&mut out, inst(ByteCode::MARK));
    emit(&mut out, label(ByteCode::LOADC, "main".to_owned()));
    emit(&mut out, inst(ByteCode::CALL));
    emit(&mut out, inst(ByteCode::HALT));
    assert(stream_view(out@) =~= prelude());
    emit_all(&mut out, insts);
    out
}

/// Emits the instructions that write the top of the stack to the result
/// slot and leave the function.
fn emit_return_value(out: &mut Vec<MetaAsm>)
    ensures
        stream_view(final(out)@) == stream_view(old(out)@) + return_value(),
{
    emit(out, data(ByteCode::LOADRC, FIRST_ARGUMENT));
    emit(out, inst(ByteCode::STORE));
    emit(out, data(ByteCode::RET, 2));
    assert(stream_view(out@) =~= stream_view(old(out)@) + return_value());
}

/// Emits the instructions that write `value` to the heap cell `offset`
/// cells behind the address held in the first local.
fn emit_store_header(out: &mut Vec<MetaAsm>, value: i64, offset: i64)
    ensures
        stream_view(final(out)@) == stream_view(old(out)@) + store_header(value, offset),
{
    emit(out, data(ByteCode::LOADC, value));
    emit(out, data(ByteCode::LOADRC, 0));
    emit(out, inst(ByteCode::LOAD));
    emit(out, data(ByteCode::LOADC, offset));
    emit(out, inst(ByteCode::ADD));
    emit(out, inst(ByteCode::STOREH));
    emit(out, inst(ByteCode::POP));
    assert(stream_view(out@) =~= stream_view(old(out)@) + store_header(value, offset));
}

/// An error among the first `n` arguments emitted is the error of the call.
proof fn lemma_gen_args_fails(ctx: AsmCtxView, args: Vec<Expr>, n: nat, m: nat)
    requires
        n <= m <= args.len(),
        gen_args(ctx, args, n) is Err,
    ensures
        gen_args(ctx, args, m) == gen_args(ctx, args, n),
    decreases m,
{
    if n < m {
        lemma_gen_args_fails(ctx, args, n, (m - 1) as nat);
    }
}

/// An error among the first `n` statements is the error of the block.
proof fn lemma_gen_stmts_fails(ctx: AsmCtxView, body: Vec<Box<Stmt>>, n: nat, m: nat)
    requires
        n <= m <= body.len(),
        gen_stmts(ctx, body, n) is Err,
    ensures
        gen_stmts(ctx, body, m) == gen_stmts(ctx, body, n),
    decreases m,
{
    if n < m {
        lemma_gen_stmts_fails(ctx, body, n, (m - 1) as nat);
    }
}

/// An error among the first `n` parameters is the error of the function.
proof fn lemma_gen_params_fails(ctx: AsmCtxView, params: Seq<Identifier>, n: nat, m: nat)
    requires
        n <= m <= params.len(),
        gen_params(ctx, params, n) is Err,
    ensures
        gen_params(ctx, params, m) == gen_params(ctx, params, n),
    decreases m,
{
    if n < m {
        lemma_gen_params_fails(ctx, params, n, (m - 1) as nat);
    }
}

/// Emits the code of an expression: as a value, or, where `l_value` is set,
/// as the address of a variable.
pub fn dispatch_expr(ctx: &AsmCtx, e: &Expr, l_value: bool) -> (r: Result<
    Vec<MetaAsm>,
    CompileError,
>)
    requires
        ctx@.wf(),
    ensures
        emitted(r, gen_expr(ctx@, *e, l_value)),
    decreases e, 1nat,
{
    match e {
        Expr::Id(id) => make_identifier(ctx, id, l_value),
        Expr::Literal(lit) => make_literal(lit),
        Expr::BinaryOp(_, _, _) => make_binary(ctx, e),
        Expr::UnaryOp(_, _) => make_unary(ctx, e),
        Expr::FunCall(_, _) => make_funcall(ctx, e),
        Expr::List(_) => Ok(empty_stream()),
        Expr::Dot(_, _) => Ok(empty_stream()),
    }
}

/// Emits the address of a variable and, unless the address itself is asked
/// for, the load of its value.
fn make_identifier(ctx: &AsmCtx, id: &Identifier, l_value: bool) -> (r: Result<
    Vec<MetaAsm>,
    CompileError,
>)
    requires
        ctx@.wf(),
    ensures
        emitted(
            r,
            match ctx@.get(id.id@) {
                None => Err(CompileErrorView::UnknownIdentifier(id.id@)),
                Some(offset) => Ok(
                    if l_value {
                        seq![asm_data(ByteCode::LOADRC, offset)]
                    } else {
                        seq![asm_data(ByteCode::LOADRC, offset), asm_inst(ByteCode::LOAD)]
                    },
                ),
            },
        ),
{
    match ctx.get(id.id.as_str()) {
        Err(e) => Err(e),
        Ok(offset) => {
            let mut out = empty_stream();
            emit(&mut out, data(ByteCode::LOADRC, offset));
            if !l_value {
                emit(&mut out, inst(ByteCode::LOAD));
                assert(stream_view(out@) =~= seq![
                    asm_data(ByteCode::LOADRC, offset),
                    asm_inst(ByteCode::LOAD),
                ]);
            } else {
                assert(stream_view(out@) =~= seq![asm_data(ByteCode::LOADRC, offset)]);
            }
            Ok(out)
        },
    }
}

/// Emits the push of a literal.
fn make_literal(lit: &Literal) -> (r: Result<Vec<MetaAsm>, CompileError>)
    ensures
        emitted(r, Ok(seq![asm_data(ByteCode::LOADC, literal_value(*lit))])),
{
    let value = match lit {
        Literal::Number(n) => *n,
        Literal::Boolean(b) => bool_to_i64(*b),
        _ => 0,
    };
    let mut out = empty_stream();
    emit(&mut out, data(ByteCode::LOADC, value));
    assert(stream_view(out@) =~= seq![asm_data(ByteCode::LOADC, literal_value(*lit))]);
    Ok(out)
}

/// Emits both operands and then the opcode of the operator.
fn make_binary(ctx: &AsmCtx, e: &Expr) -> (r: Result<Vec<MetaAsm>, CompileError>)
    requires
        ctx@.wf(),
        e is BinaryOp,
    ensures
        emitted(r, gen_expr(ctx@, *e, false)),
    decreases e, 0nat,
{
    match e {
        Expr::BinaryOp(lhs, op, rhs) => {
            let mut out = match dispatch_expr(ctx, lhs, false) {
                Err(e) => {
                    return Err(e);
                },
                Ok(a) => a,
            };
            match dispatch_expr(ctx, rhs, false) {
                Err(e) => {
                    return Err(e);
                },
                Ok(b) => {
                    emit_all(&mut out, b);
                },
            }
            match binary_bytecode(*op) {
                None => Err(CompileError::UnsupportedOperator),
                Some(code) => {
                    let ghost operands = stream_view(out@);
                    emit(&mut out, inst(code));
                    assert(stream_view(out@) =~= operands + seq![asm_inst(code)]);
                    Ok(out)
                },
            }
        },
        _ => Ok(empty_stream()),
    }
}

/// Emits the operand and then the opcode of the operator.
fn make_unary(ctx: &AsmCtx, e: &Expr) -> (r: Result<Vec<MetaAsm>, CompileError>)
    requires
        ctx@.wf(),
        e is UnaryOp,
    ensures
        emitted(r, gen_expr(ctx@, *e, false)),
    decreases e, 0nat,
{
    match e {
        Expr::UnaryOp(op, rhs) => {
            let mut out = match dispatch_expr(ctx, rhs, false) {
                Err(e) => {
                    return Err(e);
                },
                Ok(a) => a,
            };
            match unary_bytecode(*op) {
                None => Err(CompileError::UnsupportedOperator),
                Some(code) => {
                    let ghost operand = stream_view(out@);
                    emit(&mut out, inst(code));
                    assert(stream_view(out@) =~= operand + seq![asm_inst(code)]);
                    Ok(out)
                },
            }
        },
        _ => Ok(empty_stream()),
    }
}

/// Emits a call: the result slot, the arguments from the last to the
/// first, the call itself and the slide of the result over the arguments.
fn make_funcall(ctx: &AsmCtx, e: &Expr) -> (r: Result<Vec<MetaAsm>, CompileError>)
    requires
        ctx@.wf(),
        e is FunCall,
    ensures
        emitted(r, gen_expr(ctx@, *e, false)),
    decreases e, 0nat,
{
    match e {
        Expr::FunCall(id, args) => {
            let count = args.len();
            if count as u64 > i64::MAX as u64 {
                return Err(CompileError::LimitExceeded);
            }
            let mut code = empty_stream();
            let mut n: usize = 0;
            while n < count
                invariant
                    n <= count,
                    count == args.len(),
                    count <= i64::MAX,
                    ctx@.wf(),
                    e is FunCall,
                    e->FunCall_1 == args,
                    gen_args(ctx@, *args, n as nat) == Ok::<Seq<MetaAsmView>, CompileErrorView>(
                        stream_view(code@),
                    ),
                decreases count - n,
            {
                n += 1;
                assert(args[args.len() - n] == args@[count - n]);
                match dispatch_expr(ctx, &args[count - n], false) {
                    Err(e) => {
                        proof {
                            assert(gen_args(ctx@, *args, n as nat) is Err);
                            lemma_gen_args_fails(ctx@, *args, n as nat, count as nat);
                        }
                        return Err(e);
                    },
                    Ok(more) => {
                        emit_all(&mut code, more);
                    },
                }
            }
            let mut out = empty_stream();
            emit(&mut out, data(ByteCode::ALLOC, 1));
            let ghost arguments = stream_view(code@);
            emit_all(&mut out, code);
            emit(&mut out, inst(ByteCode::MARK));
            emit(&mut out, label(ByteCode::LOADC, id.clone()));
            emit(&mut out, inst(ByteCode::CALL));
            emit(&mut out, data(ByteCode::SLIDE, count as i64));
            assert(stream_view(out@) =~= call_sequence(id@, arguments, count as i64));
            Ok(out)
        },
        _ => Ok(empty_stream()),
    }
}

/// Whether `r` and the state `after` are the outcome `expected`, seen
/// through views.
pub open spec fn emitted_in(
    r: Result<Vec<MetaAsm>, CompileError>,
    after: AsmCtxView,
    expected: Result<(AsmCtxView, Seq<MetaAsmView>), CompileErrorView>,
) -> bool {
    match expected {
        Ok((ctx, code)) => r is Ok && stream_view(r->Ok_0@) == code && after == ctx,
        Err(e) => r is Err && r->Err_0@ == e,
    }
}

/// Emits the code of a statement and moves the generator to the state in
/// which the statement leaves it.
pub fn dispatch_stmt(ctx: &mut AsmCtx, s: &Stmt) -> (r: Result<Vec<MetaAsm>, CompileError>)
    requires
        old(ctx)@.wf(),
    ensures
        final(ctx)@.wf(),
        emitted_in(r, final(ctx)@, gen_stmt(old(ctx)@, *s)),
    decreases s, 1nat,
{
    match s {
        Stmt::Block(_, _) => make_block(ctx, s),
        Stmt::If(_, _, _) => make_if(ctx, s),
        Stmt::While(_, _) => make_while(ctx, s),
        Stmt::Return(_) => make_return(ctx, s),
        Stmt::Declaration(id) => make_declaration(ctx, id),
        Stmt::FunDecl(_, _, _) => make_fun(ctx, s),
        Stmt::Assignment(_, _) => make_assignment(ctx, s),
        Stmt::Struct(id, _) => make_struct(ctx, id),
    }
}

/// Emits the statements of a block in order, inside a scope level of its
/// own where the block opens one.
fn make_block(ctx: &mut AsmCtx, s: &Stmt) -> (r: Result<Vec<MetaAsm>, CompileError>)
    requires
        old(ctx)@.wf(),
        s is Block,
    ensures
        final(ctx)@.wf(),
        emitted_in(r, final(ctx)@, gen_stmt(old(ctx)@, *s)),
    decreases s, 0nat,
{
    match s {
        Stmt::Block(body, is_scope) => {
            if *is_scope {
                ctx.push_scope();
            }
            let ghost inner = ctx@;
            let mut out = empty_stream();
            let mut n: usize = 0;
            while n < body.len()
                invariant
                    n <= body.len(),
                    ctx@.wf(),
                    s is Block,
                    s->Block_0 == body,
                    s->Block_1 == is_scope,
                    inner == if *is_scope {
                        old(ctx)@.push_scope()
                    } else {
                        old(ctx)@
                    },
                    gen_stmts(inner, *body, n as nat) == Ok::<
                        (AsmCtxView, Seq<MetaAsmView>),
                        CompileErrorView,
                    >((ctx@, stream_view(out@))),
                decreases body.len() - n,
            {
                assert(*body[n as int] == *body@[n as int]);
                match dispatch_stmt(ctx, &body[n]) {
                    Err(e) => {
                        proof {
                            assert(gen_stmts(inner, *body, (n + 1) as nat) is Err);
                            lemma_gen_stmts_fails(
                                inner,
                                *body,
                                (n + 1) as nat,
                                body.len() as nat,
                            );
                        }
                        return Err(e);
                    },
                    Ok(more) => {
                        emit_all(&mut out, more);
                    },
                }
                n += 1;
            }
            if *is_scope {
                ctx.pop_scope();
            }
            Ok(out)
        },
        _ => Ok(empty_stream()),
    }
}

/// Emits a conditional: the test, a jump to the alternative where the test
/// gives 0, the body, a jump over the alternative, and the alternative.
fn make_if(ctx: &mut AsmCtx, s: &Stmt) -> (r: Result<Vec<MetaAsm>, CompileError>)
    requires
        old(ctx)@.wf(),
        s is If,
    ensures
        final(ctx)@.wf(),
        emitted_in(r, final(ctx)@, gen_stmt(old(ctx)@, *s)),
    decreases s, 0nat,
{
    match s {
        Stmt::If(test, body, alter) => {
            if ctx.suffix() >= usize::MAX - 1 {
                return Err(CompileError::LimitExceeded);
            }
            let alter_label = ctx.next_label();
            let end_label = ctx.next_label();
            let mut out = match dispatch_expr(ctx, test, false) {
                Err(e) => {
                    return Err(e);
                },
                Ok(t) => t,
            };
            let ghost t = stream_view(out@);
            emit(&mut out, label(ByteCode::JUMPZ, alter_label.clone()));
            let b = match dispatch_stmt(ctx, body) {
                Err(e) => {
                    return Err(e);
                },
                Ok(b) => b,
            };
            let ghost bv = stream_view(b@);
            emit_all(&mut out, b);
            emit(&mut out, label(ByteCode::JUMP, end_label.clone()));
            emit(&mut out, mark(alter_label));
            let a = match dispatch_stmt(ctx, alter) {
                Err(e) => {
                    return Err(e);
                },
                Ok(a) => a,
            };
            let ghost av = stream_view(a@);
            emit_all(&mut out, a);
            emit(&mut out, mark(end_label));
            assert(stream_view(out@) =~= t + seq![asm_label(ByteCode::JUMPZ, alter_label@)] + bv
                + seq![asm_label(ByteCode::JUMP, end_label@), MetaAsmView::Lbl(alter_label@)]
                + av + seq![MetaAsmView::Lbl(end_label@)]);
            Ok(out)
        },
        _ => Ok(empty_stream()),
    }
}

/// Emits a loop: the test, a jump behind the loop where the test gives 0,
/// the body, and a jump back to the test.
fn make_while(ctx: &mut AsmCtx, s: &Stmt) -> (r: Result<Vec<MetaAsm>, CompileError>)
    requires
        old(ctx)@.wf(),
        s is While,
    ensures
        final(ctx)@.wf(),
        emitted_in(r, final(ctx)@, gen_stmt(old(ctx)@, *s)),
    decreases s, 0nat,
{
    match s {
        Stmt::While(test, body) => {
            if ctx.suffix() >= usize::MAX - 1 {
                return Err(CompileError::LimitExceeded);
            }
            let test_label = ctx.next_label();
            let end_label = ctx.next_label();
            let mut out = empty_stream();
            emit(&mut out, mark(test_label.clone()));
            match dispatch_expr(ctx, test, false) {
                Err(e) => {
                    return Err(e);
                },
                Ok(t) => {
                    emit_all(&mut out, t);
                },
            }
            let ghost head = stream_view(out@);
            emit(&mut out, label(ByteCode::JUMPZ, end_label.clone()));
            let b = match dispatch_stmt(ctx, body) {
                Err(e) => {
                    return Err(e);
                },
                Ok(b) => b,
            };
            let ghost bv = stream_view(b@);
            emit_all(&mut out, b);
            emit(&mut out, label(ByteCode::JUMP, test_label));
            emit(&mut out, mark(end_label));
            assert(stream_view(out@) =~= head + seq![asm_label(ByteCode::JUMPZ, end_label@)] + bv
                + seq![asm_label(ByteCode::JUMP, test_label@), MetaAsmView::Lbl(end_label@)]);
            Ok(out)
        },
        _ => Ok(empty_stream()),
    }
}

/// Emits a return. With a value: the value, its store to the result slot
/// and `RET 2`. Without: a `RET` that also removes the arguments.
fn make_return(ctx: &mut AsmCtx, s: &Stmt) -> (r: Result<Vec<MetaAsm>, CompileError>)
    requires
        old(ctx)@.wf(),
        s is Return,
    ensures
        final(ctx)@.wf(),
        emitted_in(r, final(ctx)@, gen_stmt(old(ctx)@, *s)),
    decreases s, 0nat,
{
    match s {
        Stmt::Return(Some(value)) => {
            let mut out = match dispatch_expr(ctx, value, false) {
                Err(e) => {
                    return Err(e);
                },
                Ok(v) => v,
            };
            emit_return_value(&mut out);
            Ok(out)
        },
        Stmt::Return(None) => {
            let args = ctx.args();
            if args as u64 > (i64::MAX - 2) as u64 {
                return Err(CompileError::LimitExceeded);
            }
            let mut out = empty_stream();
            emit(&mut out, data(ByteCode::RET, args as i64 + 2));
            assert(stream_view(out@) =~= seq![asm_data(ByteCode::RET, (args + 2) as i64)]);
            Ok(out)
        },
        _ => Ok(empty_stream()),
    }
}

/// Reserves a local slot for the declared variable; emits nothing. The
/// declaration fails with `NoScope` where no scope level is open.
fn make_declaration(ctx: &mut AsmCtx, id: &Identifier) -> (r: Result<Vec<MetaAsm>, CompileError>)
    requires
        old(ctx)@.wf(),
    ensures
        final(ctx)@.wf(),
        emitted_in(r, final(ctx)@, gen_stmt(old(ctx)@, Stmt::Declaration(*id))),
{
    if !ctx.has_level() {
        return Err(CompileError::NoScope);
    }
    if !ctx.can_define() {
        return Err(CompileError::LimitExceeded);
    }
    ctx.define(id.id.as_str());
    Ok(empty_stream())
}

/// Emits a function: its label, the reservation of its locals, its body
/// and a trailing `RET 2`.
fn make_fun(ctx: &mut AsmCtx, s: &Stmt) -> (r: Result<Vec<MetaAsm>, CompileError>)
    requires
        old(ctx)@.wf(),
        s is FunDecl,
    ensures
        final(ctx)@.wf(),
        emitted_in(r, final(ctx)@, gen_stmt(old(ctx)@, *s)),
    decreases s, 0nat,
{
    match s {
        Stmt::FunDecl(id, params, body) => {
            ctx.add_fun(id.id.as_str(), params.len());
            let ghost start = ctx@;
            let mut out = empty_stream();
            emit(&mut out, mark(id.id.clone()));
            let mut n: usize = 0;
            while n < params.len()
                invariant
                    n <= params.len(),
                    ctx@.wf(),
                    ctx@.has_level(),
                    s is FunDecl,
                    s->FunDecl_0 == id,
                    s->FunDecl_1 == params,
                    start == old(ctx)@.add_fun(id.id@, params.len()),
                    gen_params(start, params@, n as nat) == Ok::<AsmCtxView, CompileErrorView>(
                        ctx@,
                    ),
                decreases params.len() - n,
            {
                if !ctx.can_define_arg() {
                    proof {
                        assert(gen_params(start, params@, (n + 1) as nat) is Err);
                        lemma_gen_params_fails(
                            start,
                            params@,
                            (n + 1) as nat,
                            params.len() as nat,
                        );
                    }
                    return Err(CompileError::LimitExceeded);
                }
                ctx.define_arg(params[n].id.as_str());
                n += 1;
            }
            emit(&mut out, local_alloc(ByteCode::ALLOC, id.id.clone()));
            let b = match dispatch_stmt(ctx, body) {
                Err(e) => {
                    return Err(e);
                },
                Ok(b) => b,
            };
            let ghost bv = stream_view(b@);
            emit_all(&mut out, b);
            emit(&mut out, data(ByteCode::RET, 2));
            ctx.pop_fun();
            assert(stream_view(out@) =~= seq![
                MetaAsmView::Lbl(id.id@),
                asm_local_alloc(ByteCode::ALLOC, id.id@),
            ] + bv + seq![asm_data(ByteCode::RET, 2)]);
            Ok(out)
        },
        _ => Ok(empty_stream()),
    }
}

/// Emits an assignment: the value, the address of the target, the store
/// and the removal of the value that the store leaves behind.
fn make_assignment(ctx: &mut AsmCtx, s: &Stmt) -> (r: Result<Vec<MetaAsm>, CompileError>)
    requires
        old(ctx)@.wf(),
        s is Assignment,
    ensures
        final(ctx)@.wf(),
        emitted_in(r, final(ctx)@, gen_stmt(old(ctx)@, *s)),
    decreases s, 0nat,
{
    match s {
        Stmt::Assignment(lhs, rhs) => {
            let mut out = match dispatch_expr(ctx, rhs, false) {
                Err(e) => {
                    return Err(e);
                },
                Ok(r) => r,
            };
            match dispatch_expr(ctx, lhs, true) {
                Err(e) => {
                    return Err(e);
                },
                Ok(l) => {
                    emit_all(&mut out, l);
                },
            }
            let ghost both = stream_view(out@);
            emit(&mut out, inst(ByteCode::STORE));
            emit(&mut out, inst(ByteCode::POP));
            assert(stream_view(out@) =~= both + seq![
                asm_inst(ByteCode::STORE),
                asm_inst(ByteCode::POP),
            ]);
            Ok(out)
        },
        _ => Ok(empty_stream()),
    }
}

/// Emits the constructor of the struct `id`: a function that allocates the
/// struct's cells on the heap, writes its tag and size to the first two
/// and returns the address of the first.
fn make_struct(ctx: &mut AsmCtx, id: &String) -> (r: Result<Vec<MetaAsm>, CompileError>)
    requires
        old(ctx)@.wf(),
    ensures
        final(ctx)@.wf(),
        emitted_in(
            r,
            final(ctx)@,
            match old(ctx)@.get_esta_struct(id@) {
                None => Err(CompileErrorView::StructNotFound(id@)),
                Some(layout) => if layout.size > i64::MAX || layout.tag > i64::MAX {
                    Err(CompileErrorView::LimitExceeded)
                } else {
                    Ok(
                        (
                            old(ctx)@.add_fun(id@, 0).pop_fun(),
                            constructor(id@, layout.tag as i64, layout.size as i64),
                        ),
                    )
                },
            },
        ),
{
    ctx.add_fun(id.as_str(), 0);
    let layout = match ctx.get_esta_struct(id.as_str()) {
        None => {
            return Err(CompileError::StructNotFound(id.clone()));
        },
        Some(layout) => layout,
    };
    if layout.size as u64 > i64::MAX as u64 || layout.tag as u64 > i64::MAX as u64 {
        return Err(CompileError::LimitExceeded);
    }
    let size = layout.size as i64;
    let tag = layout.tag as i64;
    let mut out = empty_stream();
    emit(&mut out, mark(id.clone()));
    emit(&mut out, data(ByteCode::LOADC, size));
    emit(&mut out, inst(ByteCode::NEW));
    assert(stream_view(out@) =~= seq![
        MetaAsmView::Lbl(id@),
        asm_data(ByteCode::LOADC, size),
        asm_inst(ByteCode::NEW),
    ]);
    emit_store_header(&mut out, tag, 0);
    emit_store_header(&mut out, size, 1);
    emit_return_value(&mut out);
    ctx.pop_fun();
    Ok(out)
}

/// The code generator as a whole.
pub struct Assembler;

impl Assembler {
    /// Compiles a program: starts the top level, emits the bootstrap and
    /// the code of `body`, resolves labels and counts of locals, and lays
    /// out the data segment of `md`.
    pub fn assemble(body: &Stmt, md: MetaData) -> (r: Result<Program, CompileError>)
        ensures
            match compiled(*body, md@) {
                Ok(program) => r is Ok && r->Ok_0@ == program,
                Err(e) => r is Err && r->Err_0@ == e,
            },
    {
        let mut ctx = AsmCtx::new(md);
        ctx.add_fun("GLOBAL", 0);
        let code = match dispatch_stmt(&mut ctx, body) {
            Err(e) => {
                return Err(e);
            },
            Ok(code) => code,
        };
        let stream = bootstrap_startup(code);
        ctx.assemble(&stream)
    }
}

/// Compiles a program and its struct table into instructions and a data
/// segment.
pub fn generate(stmts: Stmt, md: MetaData) -> (r: Result<Program, CompileError>)
    ensures
        match compiled(stmts, md@) {
            Ok(program) => r is Ok && r->Ok_0@ == program,
            Err(e) => r is Err && r->Err_0@ == e,
        },
{
    Assembler::assemble(&stmts, md)
}

} // verus!
