//! What holds of every run of the code generator and of the link pass.
use vstd::prelude::*;
use crate::backend::assembly_context::{first_named, global_name, AsmCtxView};
use crate::backend::codegen::{
    binary_opcode, gen_args, gen_expr, gen_params, gen_program, gen_stmt, gen_stmts, prelude,
    unary_opcode,
};
use crate::backend::compiled;
use crate::backend::program::{
    insts_of, label_offsets, lemma_label_in_range, lemma_resolved_items, link, resolve,
};
use crate::error::CompileErrorView;
use crate::frontend::ast::{EstaStructView, Expr, Identifier, Stmt};
use crate::vm::bytecode::{
    asm_data, asm_inst, asm_label, asm_local_alloc, ByteCode, Inst, MetaAsmView, MetaVarView,
};

verus! {

/// Whether the variable `id` is read or written somewhere in an
/// expression.
pub open spec fn uses_expr(e: Expr, id: Seq<char>) -> bool
    decreases e, 0nat,
{
    match e {
        Expr::Id(name) => name.id@ == id,
        Expr::BinaryOp(lhs, _, rhs) => uses_expr(*lhs, id) || uses_expr(*rhs, id),
        Expr::UnaryOp(_, rhs) => uses_expr(*rhs, id),
        Expr::FunCall(_, args) => uses_args(args, args.len() as nat, id),
        _ => false,
    }
}

/// Whether the variable `id` occurs in one of the last `n` arguments.
pub open spec fn uses_args(args: Vec<Expr>, n: nat, id: Seq<char>) -> bool
    decreases args, n,
{
    if n == 0 || n > args.len() {
        false
    } else {
        uses_args(args, (n - 1) as nat, id) || uses_expr(args[args.len() - n], id)
    }
}

/// Whether the variable `id` is read or written somewhere in a statement.
pub open spec fn uses_stmt(s: Stmt, id: Seq<char>) -> bool
    decreases s, 0nat,
{
    match s {
        Stmt::Block(body, _) => uses_stmts(body, body.len() as nat, id),
        Stmt::If(test, body, alter) => uses_expr(*test, id) || uses_stmt(*body, id) || uses_stmt(
            *alter,
            id,
        ),
        Stmt::While(test, body) => uses_expr(*test, id) || uses_stmt(*body, id),
        Stmt::Return(Some(value)) => uses_expr(*value, id),
        Stmt::FunDecl(_, _, body) => uses_stmt(*body, id),
        Stmt::Assignment(lhs, rhs) => uses_expr(*lhs, id) || uses_expr(*rhs, id),
        _ => false,
    }
}

/// Whether the variable `id` occurs in one of the first `n` statements.
pub open spec fn uses_stmts(body: Vec<Box<Stmt>>, n: nat, id: Seq<char>) -> bool
    decreases body, n,
{
    if n == 0 || n > body.len() {
        false
    } else {
        uses_stmts(body, (n - 1) as nat, id) || uses_stmt(*body[n - 1], id)
    }
}

/// Whether every operator of an expression stands where it can: a binary
/// one between two operands, a unary one before one.
pub open spec fn placed_expr(e: Expr) -> bool
    decreases e, 0nat,
{
    match e {
        Expr::BinaryOp(lhs, op, rhs) => binary_opcode(op) is Some && placed_expr(*lhs)
            && placed_expr(*rhs),
        Expr::UnaryOp(op, rhs) => unary_opcode(op) is Some && placed_expr(*rhs),
        Expr::FunCall(_, args) => placed_args(args, args.len() as nat),
        _ => true,
    }
}

/// `placed_expr` of the last `n` arguments.
pub open spec fn placed_args(args: Vec<Expr>, n: nat) -> bool
    decreases args, n,
{
    if n == 0 || n > args.len() {
        true
    } else {
        placed_args(args, (n - 1) as nat) && placed_expr(args[args.len() - n])
    }
}

/// Whether every operator of a statement stands where it can, and every
/// struct that the statement declares is in the table `md`.
pub open spec fn sound_stmt(s: Stmt, md: Seq<EstaStructView>) -> bool
    decreases s, 0nat,
{
    match s {
        Stmt::Block(body, _) => sound_stmts(body, body.len() as nat, md),
        Stmt::If(test, body, alter) => placed_expr(*test) && sound_stmt(*body, md) && sound_stmt(
            *alter,
            md,
        ),
        Stmt::While(test, body) => placed_expr(*test) && sound_stmt(*body, md),
        Stmt::Return(Some(value)) => placed_expr(*value),
        Stmt::FunDecl(_, _, body) => sound_stmt(*body, md),
        Stmt::Assignment(lhs, rhs) => placed_expr(*lhs) && placed_expr(*rhs),
        Stmt::Struct(id, _) => first_named(md, id@) is Some,
        _ => true,
    }
}

/// `sound_stmt` of the first `n` statements.
pub open spec fn sound_stmts(body: Vec<Box<Stmt>>, n: nat, md: Seq<EstaStructView>) -> bool
    decreases body, n,
{
    if n == 0 || n > body.len() {
        true
    } else {
        sound_stmts(body, (n - 1) as nat, md) && sound_stmt(*body[n - 1], md)
    }
}

/// Whether an error is one that the generator may answer a sound program
/// with: an unknown identifier, named and used in the program, a count
/// beyond the machine's integers, or a declaration where no scope level is
/// open.
pub open spec fn expected_failure(e: CompileErrorView, used: spec_fn(Seq<char>) -> bool) -> bool {
    match e {
        CompileErrorView::UnknownIdentifier(id) => used(id),
        CompileErrorView::LimitExceeded => true,
        CompileErrorView::NoScope => true,
        _ => false,
    }
}

/// The generator answers an expression with well-placed operators with its
/// code or with an expected failure.
pub proof fn lemma_expr_outcomes(ctx: AsmCtxView, e: Expr, l_value: bool)
    requires
        placed_expr(e),
    ensures
        gen_expr(ctx, e, l_value) matches Err(err) ==> expected_failure(
            err,
            |id: Seq<char>| uses_expr(e, id),
        ),
    decreases e, 0nat,
{
    match e {
        Expr::BinaryOp(lhs, _, rhs) => {
            lemma_expr_outcomes(ctx, *lhs, false);
            lemma_expr_outcomes(ctx, *rhs, false);
        },
        Expr::UnaryOp(_, rhs) => {
            lemma_expr_outcomes(ctx, *rhs, false);
        },
        Expr::FunCall(_, args) => {
            lemma_args_outcomes(ctx, args, args.len() as nat);
        },
        _ => {},
    }
}

proof fn lemma_args_outcomes(ctx: AsmCtxView, args: Vec<Expr>, n: nat)
    requires
        placed_args(args, n),
        n <= args.len(),
    ensures
        gen_args(ctx, args, n) matches Err(err) ==> expected_failure(
            err,
            |id: Seq<char>| uses_args(args, n, id),
        ),
    decreases args, n,
{
    if n > 0 {
        lemma_args_outcomes(ctx, args, (n - 1) as nat);
        lemma_expr_outcomes(ctx, args[args.len() - n], false);
    }
}

proof fn lemma_params_outcomes(ctx: AsmCtxView, params: Seq<Identifier>, n: nat)
    requires
        n <= params.len(),
    ensures
        match gen_params(ctx, params, n) {
            Ok(c) => c.md == ctx.md,
            Err(err) => err == CompileErrorView::LimitExceeded,
        },
    decreases n,
{
    if n > 0 {
        lemma_params_outcomes(ctx, params, (n - 1) as nat);
    }
}

/// The generator answers a sound statement with its code or with an
/// expected failure: it either succeeds, or names an identifier that the
/// statement uses and that is not declared where it is used, or reports that
/// a count went beyond the machine's integers or that a variable is
/// declared where no scope level is open. The struct table stays as it is.
pub proof fn lemma_stmt_outcomes(ctx: AsmCtxView, s: Stmt)
    requires
        sound_stmt(s, ctx.md),
    ensures
        match gen_stmt(ctx, s) {
            Ok((after, _)) => after.md == ctx.md,
            Err(err) => expected_failure(err, |id: Seq<char>| uses_stmt(s, id)),
        },
    decreases s, 0nat,
{
    match s {
        Stmt::Block(body, is_scope) => {
            let inner = if is_scope {
                ctx.push_scope()
            } else {
                ctx
            };
            lemma_stmts_outcomes(inner, body, body.len() as nat);
        },
        Stmt::If(test, body, alter) => {
            let inner = ctx.next_label().next_label();
            lemma_expr_outcomes(inner, *test, false);
            lemma_stmt_outcomes(inner, *body);
            match gen_stmt(inner, *body) {
                Ok((c1, _)) => {
                    lemma_stmt_outcomes(c1, *alter);
                },
                Err(_) => {},
            }
        },
        Stmt::While(test, body) => {
            let inner = ctx.next_label().next_label();
            lemma_expr_outcomes(inner, *test, false);
            lemma_stmt_outcomes(inner, *body);
        },
        Stmt::Return(Some(value)) => {
            lemma_expr_outcomes(ctx, *value, false);
        },
        Stmt::FunDecl(id, params, body) => {
            let start = ctx.add_fun(id.id@, params.len());
            lemma_params_outcomes(start, params@, params.len() as nat);
            match gen_params(start, params@, params.len() as nat) {
                Ok(c0) => {
                    lemma_stmt_outcomes(c0, *body);
                },
                Err(_) => {},
            }
        },
        Stmt::Assignment(lhs, rhs) => {
            lemma_expr_outcomes(ctx, *rhs, false);
            lemma_expr_outcomes(ctx, *lhs, true);
        },
        _ => {},
    }
}

proof fn lemma_stmts_outcomes(ctx: AsmCtxView, body: Vec<Box<Stmt>>, n: nat)
    requires
        sound_stmts(body, n, ctx.md),
        n <= body.len(),
    ensures
        match gen_stmts(ctx, body, n) {
            Ok((after, _)) => after.md == ctx.md,
            Err(err) => expected_failure(err, |id: Seq<char>| uses_stmts(body, n, id)),
        },
    decreases body, n,
{
    if n > 0 {
        lemma_stmts_outcomes(ctx, body, (n - 1) as nat);
        match gen_stmts(ctx, body, (n - 1) as nat) {
            Ok((c, _)) => {
                lemma_stmt_outcomes(c, *body[n - 1]);
            },
            Err(_) => {},
        }
    }
}

/// Code that links holds, for every instruction of the stream, in the
/// order of the stream, an instruction with the same opcode. An operand
/// that was a label is the label's position, which lies within the code or
/// just behind it; an operand that was a function's name is the number of
/// locals of that function. No instruction is left that refers to a label
/// without a position.
pub proof fn lemma_link_resolves(stream: Seq<MetaAsmView>, locals: Map<Seq<char>, usize>)
    requires
        link(stream, locals) is Ok,
    ensures
        link(stream, locals)->Ok_0.len() == insts_of(stream, stream.len()).len(),
        forall|k: int|
            #![trigger insts_of(stream, stream.len())[k]]
            0 <= k < insts_of(stream, stream.len()).len() ==> {
                let from = insts_of(stream, stream.len())[k];
                let to = link(stream, locals)->Ok_0[k];
                let offsets = label_offsets(stream, stream.len());
                &&& to.inst == from.inst
                &&& from.var is Empty ==> to.data is None
                &&& from.var matches MetaVarView::Data(d) ==> to.data == Some(d)
                &&& from.var matches MetaVarView::Label(l) ==> offsets.contains_key(l) && to.data
                    == Some(offsets[l] as i64) && offsets[l] <= link(stream, locals)->Ok_0.len()
                    && offsets[l] <= i64::MAX
                &&& from.var matches MetaVarView::LocalAlloc(f) ==> locals.contains_key(f)
                    && to.data == Some(locals[f] as i64) && locals[f] <= i64::MAX
            },
{
    let insts = insts_of(stream, stream.len());
    let offsets = label_offsets(stream, stream.len());
    lemma_resolved_items(insts, offsets, locals, insts.len());
    assert forall|k: int| #![trigger insts[k]] 0 <= k < insts.len() implies {
        let from = insts[k];
        let to = link(stream, locals)->Ok_0[k];
        &&& to.inst == from.inst
        &&& from.var is Empty ==> to.data is None
        &&& from.var matches MetaVarView::Data(d) ==> to.data == Some(d)
        &&& from.var matches MetaVarView::Label(l) ==> offsets.contains_key(l) && to.data == Some(
            offsets[l] as i64,
        ) && offsets[l] <= link(stream, locals)->Ok_0.len() && offsets[l] <= i64::MAX
        &&& from.var matches MetaVarView::LocalAlloc(f) ==> locals.contains_key(f) && to.data
            == Some(locals[f] as i64) && locals[f] <= i64::MAX
    } by {
        assert(resolve(insts[k], offsets, locals) is Ok);
        match insts[k].var {
            MetaVarView::Label(l) => {
                lemma_label_in_range(stream, stream.len(), l);
            },
            _ => {},
        }
    }
}

/// Where a stream ends with an instruction, every label stands for the
/// index of an instruction.
pub proof fn lemma_label_before_end(stream: Seq<MetaAsmView>, l: Seq<char>)
    requires
        stream.len() > 0,
        stream.last() is Inst,
        label_offsets(stream, stream.len()).contains_key(l),
    ensures
        label_offsets(stream, stream.len())[l] < insts_of(stream, stream.len()).len(),
{
    lemma_label_in_range(stream, (stream.len() - 1) as nat, l);
}

/// Whether a stream item is no jump, or a jump to a label.
pub open spec fn symbolic_jump(item: MetaAsmView) -> bool {
    item matches MetaAsmView::Inst(i) ==> (i.inst == ByteCode::JUMP || i.inst == ByteCode::JUMPZ)
        ==> i.var is Label
}

/// Whether every jump of a stream is a jump to a label.
pub open spec fn jumps_symbolic(stream: Seq<MetaAsmView>) -> bool {
    forall|i: int| 0 <= i < stream.len() ==> symbolic_jump(#[trigger] stream[i])
}

/// The code of an expression holds no jump but to a label.
pub proof fn lemma_expr_jumps(ctx: AsmCtxView, e: Expr, l_value: bool)
    ensures
        gen_expr(ctx, e, l_value) matches Ok(code) ==> jumps_symbolic(code),
    decreases e, 0nat,
{
    match e {
        Expr::BinaryOp(lhs, _, rhs) => {
            lemma_expr_jumps(ctx, *lhs, false);
            lemma_expr_jumps(ctx, *rhs, false);
        },
        Expr::UnaryOp(_, rhs) => {
            lemma_expr_jumps(ctx, *rhs, false);
        },
        Expr::FunCall(_, args) => {
            lemma_args_jumps(ctx, args, args.len() as nat);
        },
        _ => {},
    }
}

proof fn lemma_args_jumps(ctx: AsmCtxView, args: Vec<Expr>, n: nat)
    requires
        n <= args.len(),
    ensures
        gen_args(ctx, args, n) matches Ok(code) ==> jumps_symbolic(code),
    decreases args, n,
{
    if n > 0 {
        lemma_args_jumps(ctx, args, (n - 1) as nat);
        lemma_expr_jumps(ctx, args[args.len() - n], false);
    }
}

/// The code of a statement holds no jump but to a label.
pub proof fn lemma_stmt_jumps(ctx: AsmCtxView, s: Stmt)
    ensures
        gen_stmt(ctx, s) matches Ok((_, code)) ==> jumps_symbolic(code),
    decreases s, 0nat,
{
    match s {
        Stmt::Block(body, is_scope) => {
            let inner = if is_scope {
                ctx.push_scope()
            } else {
                ctx
            };
            lemma_stmts_jumps(inner, body, body.len() as nat);
        },
        Stmt::If(test, body, alter) => {
            let inner = ctx.next_label().next_label();
            lemma_expr_jumps(inner, *test, false);
            lemma_stmt_jumps(inner, *body);
            match gen_stmt(inner, *body) {
                Ok((c1, _)) => {
                    lemma_stmt_jumps(c1, *alter);
                },
                Err(_) => {},
            }
        },
        Stmt::While(test, body) => {
            let inner = ctx.next_label().next_label();
            lemma_expr_jumps(inner, *test, false);
            lemma_stmt_jumps(inner, *body);
        },
        Stmt::Return(Some(value)) => {
            lemma_expr_jumps(ctx, *value, false);
        },
        Stmt::FunDecl(id, params, body) => {
            let start = ctx.add_fun(id.id@, params.len());
            match gen_params(start, params@, params.len() as nat) {
                Ok(c0) => {
                    lemma_stmt_jumps(c0, *body);
                },
                Err(_) => {},
            }
        },
        Stmt::Assignment(lhs, rhs) => {
            lemma_expr_jumps(ctx, *rhs, false);
            lemma_expr_jumps(ctx, *lhs, true);
        },
        _ => {},
    }
}

proof fn lemma_stmts_jumps(ctx: AsmCtxView, body: Vec<Box<Stmt>>, n: nat)
    requires
        n <= body.len(),
    ensures
        gen_stmts(ctx, body, n) matches Ok((_, code)) ==> jumps_symbolic(code),
    decreases body, n,
{
    if n > 0 {
        lemma_stmts_jumps(ctx, body, (n - 1) as nat);
        match gen_stmts(ctx, body, (n - 1) as nat) {
            Ok((c, _)) => {
                lemma_stmt_jumps(c, *body[n - 1]);
            },
            Err(_) => {},
        }
    }
}

/// The instructions of a stream whose jumps are symbolic are symbolic
/// where they jump.
proof fn lemma_insts_symbolic(stream: Seq<MetaAsmView>, n: nat)
    requires
        jumps_symbolic(stream),
        n <= stream.len(),
    ensures
        forall|k: int|
            0 <= k < insts_of(stream, n).len() ==> symbolic_jump(
                MetaAsmView::Inst(#[trigger] insts_of(stream, n)[k]),
            ),
    decreases n,
{
    if n > 0 {
        lemma_insts_symbolic(stream, (n - 1) as nat);
        assert(symbolic_jump(stream[n - 1]));
    }
}

/// In a compiled program every `JUMP` and `JUMPZ` has a target, and the
/// target is the index of an instruction of the program, provided that the
/// stream of the program ends with an instruction. A stream ends with a
/// label only where the last statement at the top level is a conditional or
/// a loop; the label then stands for the position behind the code.
pub proof fn lemma_jump_targets(s: Stmt, md: Seq<EstaStructView>)
    requires
        compiled(s, md) is Ok,
        gen_program(AsmCtxView::top_level(md), s)->Ok_0.1.last() is Inst,
    ensures
        forall|k: int|
            #![trigger compiled(s, md)->Ok_0.code[k]]
            0 <= k < compiled(s, md)->Ok_0.code.len() && (compiled(s, md)->Ok_0.code[k].inst
                == ByteCode::JUMP || compiled(s, md)->Ok_0.code[k].inst == ByteCode::JUMPZ) ==> {
                &&& compiled(s, md)->Ok_0.code[k].data is Some
                &&& 0 <= compiled(s, md)->Ok_0.code[k].data->Some_0 < compiled(
                    s,
                    md,
                )->Ok_0.code.len()
            },
{
    let ctx = AsmCtxView::top_level(md);
    let after = gen_program(ctx, s)->Ok_0.0;
    let stream = gen_program(ctx, s)->Ok_0.1;
    let code = compiled(s, md)->Ok_0.code;
    let insts = insts_of(stream, stream.len());
    lemma_stmt_jumps(ctx, s);
    assert(jumps_symbolic(stream)) by {
        let body = gen_stmt(ctx, s)->Ok_0.1;
        assert forall|i: int| 0 <= i < stream.len() implies symbolic_jump(
            #[trigger] stream[i],
        ) by {
            if i >= prelude().len() {
                assert(stream[i] == body[i - prelude().len()]);
            }
        }
    }
    lemma_insts_symbolic(stream, stream.len());
    lemma_link_resolves(stream, after.locals);
    assert forall|k: int|
        #![trigger code[k]]
        0 <= k < code.len() && (code[k].inst == ByteCode::JUMP || code[k].inst
            == ByteCode::JUMPZ) implies code[k].data is Some && 0 <= code[k].data->Some_0
        < code.len() by {
        assert(symbolic_jump(MetaAsmView::Inst(insts[k])));
        match insts[k].var {
            MetaVarView::Label(l) => {
                lemma_label_before_end(stream, l);
            },
            _ => {},
        }
    }
}

/// Whether a statement holds no declaration of a function or a struct.
pub open spec fn flat_stmt(s: Stmt) -> bool
    decreases s, 0nat,
{
    match s {
        Stmt::Block(body, _) => flat_stmts(body, body.len() as nat),
        Stmt::If(_, body, alter) => flat_stmt(*body) && flat_stmt(*alter),
        Stmt::While(_, body) => flat_stmt(*body),
        Stmt::FunDecl(_, _, _) => false,
        Stmt::Struct(_, _) => false,
        _ => true,
    }
}

/// `flat_stmt` of the first `n` statements.
pub open spec fn flat_stmts(body: Vec<Box<Stmt>>, n: nat) -> bool
    decreases body, n,
{
    if n == 0 || n > body.len() {
        true
    } else {
        flat_stmts(body, (n - 1) as nat) && flat_stmt(*body[n - 1])
    }
}

/// The number of variable declarations in a statement.
pub open spec fn declared(s: Stmt) -> nat
    decreases s, 0nat,
{
    match s {
        Stmt::Block(body, _) => declared_in(body, body.len() as nat),
        Stmt::If(_, body, alter) => declared(*body) + declared(*alter),
        Stmt::While(_, body) => declared(*body),
        Stmt::Declaration(_) => 1,
        Stmt::FunDecl(_, _, body) => declared(*body),
        _ => 0,
    }
}

/// The number of variable declarations in the first `n` statements.
pub open spec fn declared_in(body: Vec<Box<Stmt>>, n: nat) -> nat
    decreases body, n,
{
    if n == 0 || n > body.len() {
        0
    } else {
        declared_in(body, (n - 1) as nat) + declared(*body[n - 1])
    }
}

/// Whether a statement declares a function or a struct named `f`.
pub open spec fn declares(s: Stmt, f: Seq<char>) -> bool
    decreases s, 0nat,
{
    match s {
        Stmt::Block(body, _) => declares_in(body, body.len() as nat, f),
        Stmt::If(_, body, alter) => declares(*body, f) || declares(*alter, f),
        Stmt::While(_, body) => declares(*body, f),
        Stmt::FunDecl(id, _, body) => id.id@ == f || declares(*body, f),
        Stmt::Struct(id, _) => id@ == f,
        _ => false,
    }
}

/// `declares` of one of the first `n` statements.
pub open spec fn declares_in(body: Vec<Box<Stmt>>, n: nat, f: Seq<char>) -> bool
    decreases body, n,
{
    if n == 0 || n > body.len() {
        false
    } else {
        declares_in(body, (n - 1) as nat, f) || declares(*body[n - 1], f)
    }
}

/// What generating a statement without inner functions does to the counts
/// of locals: the count of the function being emitted grows by the number
/// of declarations in the statement, and nothing else changes.
pub open spec fn counted(before: AsmCtxView, after: AsmCtxView, n: nat) -> bool {
    &&& after.wf()
    &&& after.base == before.base
    &&& after.args == before.args
    &&& before.locals[before.base] + n <= usize::MAX
    &&& after.locals == before.locals.insert(
        before.base,
        (before.locals[before.base] + n) as usize,
    )
}

/// Generating a statement that declares no function and no struct counts
/// each of its variable declarations once, as a local of the function being
/// emitted.
pub proof fn lemma_counts_declarations(ctx: AsmCtxView, s: Stmt)
    requires
        ctx.wf(),
        flat_stmt(s),
        gen_stmt(ctx, s) is Ok,
    ensures
        counted(ctx, gen_stmt(ctx, s)->Ok_0.0, declared(s)),
    decreases s, 0nat,
{
    let after = gen_stmt(ctx, s)->Ok_0.0;
    match s {
        Stmt::Block(body, is_scope) => {
            let inner = if is_scope {
                ctx.push_scope()
            } else {
                ctx
            };
            lemma_counts_in(inner, body, body.len() as nat);
            assert(after.locals =~= ctx.locals.insert(
                ctx.base,
                (ctx.locals[ctx.base] + declared(s)) as usize,
            ));
        },
        Stmt::If(_, body, alter) => {
            let inner = ctx.next_label().next_label();
            lemma_counts_declarations(inner, *body);
            let c1 = gen_stmt(inner, *body)->Ok_0.0;
            lemma_counts_declarations(c1, *alter);
            assert(after.locals =~= ctx.locals.insert(
                ctx.base,
                (ctx.locals[ctx.base] + declared(s)) as usize,
            ));
        },
        Stmt::While(_, body) => {
            let inner = ctx.next_label().next_label();
            lemma_counts_declarations(inner, *body);
            assert(after.locals =~= ctx.locals.insert(
                ctx.base,
                (ctx.locals[ctx.base] + declared(s)) as usize,
            ));
        },
        Stmt::Declaration(_) => {},
        _ => {
            assert(after.locals =~= ctx.locals.insert(
                ctx.base,
                (ctx.locals[ctx.base] + declared(s)) as usize,
            ));
        },
    }
}

proof fn lemma_counts_in(ctx: AsmCtxView, body: Vec<Box<Stmt>>, n: nat)
    requires
        ctx.wf(),
        flat_stmts(body, n),
        n <= body.len(),
        gen_stmts(ctx, body, n) is Ok,
    ensures
        counted(ctx, gen_stmts(ctx, body, n)->Ok_0.0, declared_in(body, n)),
    decreases body, n,
{
    let after = gen_stmts(ctx, body, n)->Ok_0.0;
    if n == 0 {
        assert(after.locals =~= ctx.locals.insert(ctx.base, (ctx.locals[ctx.base] + 0) as usize));
    } else {
        lemma_counts_in(ctx, body, (n - 1) as nat);
        let mid = gen_stmts(ctx, body, (n - 1) as nat)->Ok_0.0;
        lemma_counts_declarations(mid, *body[n - 1]);
        assert(after.locals =~= ctx.locals.insert(
            ctx.base,
            (ctx.locals[ctx.base] + declared_in(body, n)) as usize,
        ));
    }
}

proof fn lemma_params_keep_counts(ctx: AsmCtxView, params: Seq<Identifier>, n: nat)
    requires
        ctx.wf(),
        n <= params.len(),
        gen_params(ctx, params, n) is Ok,
    ensures
        gen_params(ctx, params, n)->Ok_0.wf(),
        gen_params(ctx, params, n)->Ok_0.base == ctx.base,
        gen_params(ctx, params, n)->Ok_0.locals == ctx.locals,
    decreases n,
{
    if n > 0 {
        lemma_params_keep_counts(ctx, params, (n - 1) as nat);
    }
}

/// The count of locals that the generator keeps for a function is the
/// number of variable declarations in the function's body, where the body
/// declares no function and no struct. The function's code starts with its
/// label and the `ALLOC` that the link pass gives this count.
pub proof fn lemma_function_locals(ctx: AsmCtxView, s: Stmt)
    requires
        ctx.wf(),
        s is FunDecl,
        flat_stmt(*s->FunDecl_2),
        gen_stmt(ctx, s) is Ok,
    ensures
        gen_stmt(ctx, s)->Ok_0.0.locals.contains_key(s->FunDecl_0.id@),
        gen_stmt(ctx, s)->Ok_0.0.locals[s->FunDecl_0.id@] == declared(*s->FunDecl_2),
        gen_stmt(ctx, s)->Ok_0.0.base == global_name(),
        gen_stmt(ctx, s)->Ok_0.1[0] == MetaAsmView::Lbl(s->FunDecl_0.id@),
        gen_stmt(ctx, s)->Ok_0.1[1] == asm_local_alloc(ByteCode::ALLOC, s->FunDecl_0.id@),
{
    match s {
        Stmt::FunDecl(id, params, body) => {
            let start = ctx.add_fun(id.id@, params.len());
            lemma_params_keep_counts(start, params@, params.len() as nat);
            let c0 = gen_params(start, params@, params.len() as nat)->Ok_0;
            lemma_counts_declarations(c0, *body);
        },
        _ => {},
    }
}

/// Whether `f` is neither the function being emitted nor the top level, so
/// that only a declaration named `f` can touch its count.
pub open spec fn untouched(ctx: AsmCtxView, f: Seq<char>) -> bool {
    ctx.base != f && f != global_name()
}

/// Whether the count of locals of `f` is the same in both states.
pub open spec fn same_count(before: AsmCtxView, after: AsmCtxView, f: Seq<char>) -> bool {
    &&& untouched(after, f)
    &&& after.locals.contains_key(f) == before.locals.contains_key(f)
    &&& after.locals[f] == before.locals[f]
}

/// A statement that declares nothing named `f` leaves the count of locals
/// of `f` alone, unless `f` is the function being emitted or the top
/// level.
pub proof fn lemma_count_stable(ctx: AsmCtxView, s: Stmt, f: Seq<char>)
    requires
        untouched(ctx, f),
        !declares(s, f),
        gen_stmt(ctx, s) is Ok,
    ensures
        same_count(ctx, gen_stmt(ctx, s)->Ok_0.0, f),
    decreases s, 0nat,
{
    match s {
        Stmt::Block(body, is_scope) => {
            let inner = if is_scope {
                ctx.push_scope()
            } else {
                ctx
            };
            lemma_count_stable_in(inner, body, body.len() as nat, f);
        },
        Stmt::If(_, body, alter) => {
            let inner = ctx.next_label().next_label();
            lemma_count_stable(inner, *body, f);
            lemma_count_stable(gen_stmt(inner, *body)->Ok_0.0, *alter, f);
        },
        Stmt::While(_, body) => {
            let inner = ctx.next_label().next_label();
            lemma_count_stable(inner, *body, f);
        },
        Stmt::FunDecl(id, params, body) => {
            let start = ctx.add_fun(id.id@, params.len());
            lemma_params_keep_base(start, params@, params.len() as nat);
            let c0 = gen_params(start, params@, params.len() as nat)->Ok_0;
            lemma_count_stable(c0, *body, f);
        },
        _ => {},
    }
}

proof fn lemma_params_keep_base(ctx: AsmCtxView, params: Seq<Identifier>, n: nat)
    requires
        n <= params.len(),
        gen_params(ctx, params, n) is Ok,
    ensures
        gen_params(ctx, params, n)->Ok_0.base == ctx.base,
        gen_params(ctx, params, n)->Ok_0.locals == ctx.locals,
    decreases n,
{
    if n > 0 {
        lemma_params_keep_base(ctx, params, (n - 1) as nat);
    }
}

proof fn lemma_count_stable_in(ctx: AsmCtxView, body: Vec<Box<Stmt>>, n: nat, f: Seq<char>)
    requires
        untouched(ctx, f),
        !declares_in(body, n, f),
        n <= body.len(),
        gen_stmts(ctx, body, n) is Ok,
    ensures
        same_count(ctx, gen_stmts(ctx, body, n)->Ok_0.0, f),
    decreases body, n,
{
    if n > 0 {
        lemma_count_stable_in(ctx, body, (n - 1) as nat, f);
        lemma_count_stable(gen_stmts(ctx, body, (n - 1) as nat)->Ok_0.0, *body[n - 1], f);
    }
}

/// The generator emits, for a call with `k` arguments, a sequence that
/// starts with the reservation of the result slot and ends with `CALL` and
/// `SLIDE k`.
pub proof fn lemma_call_site(ctx: AsmCtxView, e: Expr, l_value: bool)
    requires
        e is FunCall,
        gen_expr(ctx, e, l_value) is Ok,
    ensures
        ({
            let code = gen_expr(ctx, e, l_value)->Ok_0;
            let n = code.len() as int;
            &&& n >= 5
            &&& code[0] == asm_data(ByteCode::ALLOC, 1)
            &&& code[n - 4] == asm_inst(ByteCode::MARK)
            &&& code[n - 3] == asm_label(ByteCode::LOADC, e->FunCall_0@)
            &&& code[n - 2] == asm_inst(ByteCode::CALL)
            &&& code[n - 1] == asm_data(ByteCode::SLIDE, e->FunCall_1.len() as i64)
            &&& e->FunCall_1.len() <= i64::MAX
        }),
{
}

/// The generator leaves a well-formed state well formed.
pub proof fn lemma_keeps_wf(ctx: AsmCtxView, s: Stmt)
    requires
        ctx.wf(),
        gen_stmt(ctx, s) is Ok,
    ensures
        gen_stmt(ctx, s)->Ok_0.0.wf(),
    decreases s, 0nat,
{
    match s {
        Stmt::Block(body, is_scope) => {
            let inner = if is_scope {
                ctx.push_scope()
            } else {
                ctx
            };
            lemma_keeps_wf_in(inner, body, body.len() as nat);
        },
        Stmt::If(_, body, alter) => {
            let inner = ctx.next_label().next_label();
            lemma_keeps_wf(inner, *body);
            lemma_keeps_wf(gen_stmt(inner, *body)->Ok_0.0, *alter);
        },
        Stmt::While(_, body) => {
            let inner = ctx.next_label().next_label();
            lemma_keeps_wf(inner, *body);
        },
        Stmt::FunDecl(id, params, body) => {
            let start = ctx.add_fun(id.id@, params.len());
            lemma_params_keep_counts(start, params@, params.len() as nat);
            lemma_keeps_wf(gen_params(start, params@, params.len() as nat)->Ok_0, *body);
        },
        _ => {},
    }
}

proof fn lemma_keeps_wf_in(ctx: AsmCtxView, body: Vec<Box<Stmt>>, n: nat)
    requires
        ctx.wf(),
        n <= body.len(),
        gen_stmts(ctx, body, n) is Ok,
    ensures
        gen_stmts(ctx, body, n)->Ok_0.0.wf(),
    decreases body, n,
{
    if n > 0 {
        lemma_keeps_wf_in(ctx, body, (n - 1) as nat);
        lemma_keeps_wf(gen_stmts(ctx, body, (n - 1) as nat)->Ok_0.0, *body[n - 1]);
    }
}

/// Where the first `n` statements of a block can be generated, so can the
/// first `m` of them.
proof fn lemma_prefix_ok(ctx: AsmCtxView, body: Vec<Box<Stmt>>, m: nat, n: nat)
    requires
        m <= n <= body.len(),
        gen_stmts(ctx, body, n) is Ok,
    ensures
        gen_stmts(ctx, body, m) is Ok,
    decreases n,
{
    if m < n {
        lemma_prefix_ok(ctx, body, m, (n - 1) as nat);
    }
}

/// The statements of a block from the place `m` up to the place `n` leave
/// the count of `f` alone where none of them declares anything named `f`.
proof fn lemma_count_stable_from(
    ctx: AsmCtxView,
    body: Vec<Box<Stmt>>,
    m: nat,
    n: nat,
    f: Seq<char>,
)
    requires
        m <= n <= body.len(),
        gen_stmts(ctx, body, n) is Ok,
        gen_stmts(ctx, body, m) is Ok,
        untouched(gen_stmts(ctx, body, m)->Ok_0.0, f),
        forall|j: int| m <= j < n ==> !declares(*#[trigger] body[j], f),
    ensures
        same_count(gen_stmts(ctx, body, m)->Ok_0.0, gen_stmts(ctx, body, n)->Ok_0.0, f),
    decreases n,
{
    if m < n {
        lemma_prefix_ok(ctx, body, (n - 1) as nat, n);
        lemma_count_stable_from(ctx, body, m, (n - 1) as nat, f);
        assert(!declares(*body[n - 1], f));
        lemma_count_stable(gen_stmts(ctx, body, (n - 1) as nat)->Ok_0.0, *body[n - 1], f);
    }
}

/// In a compiled program, the `ALLOC` at the start of a function reserves
/// exactly as many cells as the body of the function declares variables.
///
/// The program is a block, and the function is the statement at the place
/// `i` of the block. The claim holds where the body of the function
/// declares no function and no struct, where no later statement of the
/// block declares anything of the function's name, and where the function
/// is not named like the top level: a later declaration of the same name
/// would replace the count, and an inner declaration would end the
/// function early.
pub proof fn lemma_alloc_counts(s: Stmt, md: Seq<EstaStructView>, i: int)
    requires
        s is Block,
        0 <= i < s->Block_0.len(),
        *s->Block_0[i] is FunDecl,
        (*s->Block_0[i])->FunDecl_0.id@ != global_name(),
        flat_stmt(*(*s->Block_0[i])->FunDecl_2),
        forall|j: int|
            i < j < s->Block_0.len() ==> !declares(
                *#[trigger] s->Block_0[j],
                (*s->Block_0[i])->FunDecl_0.id@,
            ),
        compiled(s, md) is Ok,
    ensures
        ({
            let f = (*s->Block_0[i])->FunDecl_0.id@;
            let count = declared(*(*s->Block_0[i])->FunDecl_2);
            let stream = gen_program(AsmCtxView::top_level(md), s)->Ok_0.1;
            let insts = insts_of(stream, stream.len());
            let code = compiled(s, md)->Ok_0.code;
            &&& code.len() == insts.len()
            &&& forall|k: int|
                0 <= k < insts.len() && (#[trigger] insts[k]).var == MetaVarView::LocalAlloc(f)
                    ==> count <= i64::MAX && code[k] == (Inst {
                    inst: insts[k].inst,
                    data: Some(count as i64),
                })
        }),
{
    let body = s->Block_0;
    let is_scope = s->Block_1;
    let f = (*body[i])->FunDecl_0.id@;
    let ctx = AsmCtxView::top_level(md);
    let inner = if is_scope {
        ctx.push_scope()
    } else {
        ctx
    };
    let len = body.len() as nat;
    let after = gen_program(ctx, s)->Ok_0.0;
    let stream = gen_program(ctx, s)->Ok_0.1;
    lemma_prefix_ok(inner, body, i as nat, len);
    lemma_prefix_ok(inner, body, (i + 1) as nat, len);
    let before = gen_stmts(inner, body, i as nat)->Ok_0.0;
    lemma_keeps_wf_in(inner, body, i as nat);
    lemma_function_locals(before, *body[i]);
    let entered = gen_stmts(inner, body, (i + 1) as nat)->Ok_0.0;
    assert(entered == gen_stmt(before, *body[i])->Ok_0.0);
    assert(untouched(entered, f));
    lemma_count_stable_from(inner, body, (i + 1) as nat, len, f);
    let last = gen_stmts(inner, body, len)->Ok_0.0;
    assert(after.locals == last.locals);
    assert(after.locals[f] == declared(*(*body[i])->FunDecl_2));
    lemma_link_resolves(stream, after.locals);
    let insts = insts_of(stream, stream.len());
    let code = compiled(s, md)->Ok_0.code;
    assert(code == link(stream, after.locals)->Ok_0);
    assert forall|k: int|
        0 <= k < insts.len() && (#[trigger] insts[k]).var == MetaVarView::LocalAlloc(
            f,
        ) implies declared(*(*body[i])->FunDecl_2) <= i64::MAX && code[k] == (Inst {
        inst: insts[k].inst,
        data: Some(declared(*(*body[i])->FunDecl_2) as i64),
    }) by {
        assert(code[k].inst == insts[k].inst);
    }
}

} // verus!
