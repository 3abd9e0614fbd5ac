//! Calls in the code of a whole program: every call of the program has its
//! call sequence in the stream, and running a call sequence whose callee
//! returns leaves one value more on the stack.
use vstd::prelude::*;
use crate::backend::assembly_context::AsmCtxView;
use crate::backend::codegen::{
    call_sequence, gen_args, gen_expr, gen_params, gen_program, gen_stmt, gen_stmts, prelude,
};
use crate::backend::compiled;
use crate::backend::evaluation::{
    all_plain, at_code, eval, lemma_pure_expression_runs, lemma_pure_is_plain, plain, plain_code,
    pure,
};
use crate::backend::program::{
    insts_of, label_offsets, lemma_resolved_items, link, resolve,
};
use crate::error::CompileErrorView;
use crate::frontend::ast::{EstaStructView, Expr, Stmt};
use crate::vm::bytecode::{asm_data, asm_inst, asm_label, ByteCode, Inst, MetaAsmView};
use crate::vm::protocol::{
    has_inst, lemma_call_builds_frame, lemma_return_and_slide, lemma_run_keeps_code,
    lemma_run_split,
};
use crate::vm::semantics::{zeros, Step, VMView};

verus! {

/// Whether the call `call` is the expression `e` or a part of it.
pub open spec fn occurs_expr(e: Expr, call: Expr) -> bool
    decreases e, 0nat,
{
    e == call || match e {
        Expr::BinaryOp(lhs, _, rhs) => occurs_expr(*lhs, call) || occurs_expr(*rhs, call),
        Expr::UnaryOp(_, rhs) => occurs_expr(*rhs, call),
        Expr::FunCall(_, args) => occurs_args(args, args.len() as nat, call),
        _ => false,
    }
}

/// Whether `call` occurs in one of the last `n` arguments of a call.
pub open spec fn occurs_args(args: Vec<Expr>, n: nat, call: Expr) -> bool
    decreases args, n,
{
    if n == 0 || n > args.len() {
        false
    } else {
        occurs_args(args, (n - 1) as nat, call) || occurs_expr(args[args.len() - n], call)
    }
}

/// Whether `call` occurs in an expression of a statement.
pub open spec fn occurs_stmt(s: Stmt, call: Expr) -> bool
    decreases s, 0nat,
{
    match s {
        Stmt::Block(body, _) => occurs_stmts(body, body.len() as nat, call),
        Stmt::If(test, body, alter) => occurs_expr(*test, call) || occurs_stmt(*body, call)
            || occurs_stmt(*alter, call),
        Stmt::While(test, body) => occurs_expr(*test, call) || occurs_stmt(*body, call),
        Stmt::Return(Some(value)) => occurs_expr(*value, call),
        Stmt::FunDecl(_, _, body) => occurs_stmt(*body, call),
        Stmt::Assignment(lhs, rhs) => occurs_expr(*lhs, call) || occurs_expr(*rhs, call),
        _ => false,
    }
}

/// Whether `call` occurs in one of the first `n` statements of a block.
pub open spec fn occurs_stmts(body: Vec<Box<Stmt>>, n: nat, call: Expr) -> bool
    decreases body, n,
{
    if n == 0 || n > body.len() {
        false
    } else {
        occurs_stmts(body, (n - 1) as nat, call) || occurs_stmt(*body[n - 1], call)
    }
}

/// Whether a stream holds `part` from the index `at` on.
pub open spec fn holds_at(stream: Seq<MetaAsmView>, at: int, part: Seq<MetaAsmView>) -> bool {
    &&& 0 <= at
    &&& at + part.len() <= stream.len()
    &&& stream.subrange(at, at + part.len()) == part
}

/// Whether a stream holds, from the index `at` on, the call sequence of
/// `call` with the code of its arguments as generated in the state `ctx`:
/// `ALLOC 1`, the code of the arguments, `MARK`, `LOADC` of the callee's
/// label, `CALL`, and `SLIDE` with the number of the arguments.
pub open spec fn site_at(stream: Seq<MetaAsmView>, at: int, ctx: AsmCtxView, call: Expr) -> bool {
    &&& call is FunCall
    &&& call->FunCall_1.len() <= i64::MAX
    &&& gen_args(ctx, call->FunCall_1, call->FunCall_1.len() as nat) is Ok
    &&& holds_at(
        stream,
        at,
        call_sequence(
            call->FunCall_0@,
            gen_args(ctx, call->FunCall_1, call->FunCall_1.len() as nat)->Ok_0,
            call->FunCall_1.len() as i64,
        ),
    )
}

/// Whether a stream holds the call sequence of `call` somewhere.
pub open spec fn has_site(stream: Seq<MetaAsmView>, call: Expr) -> bool {
    exists|at: int, ctx: AsmCtxView| #[trigger] site_at(stream, at, ctx, call)
}

/// A call sequence in a part of a stream is one in the stream.
proof fn lemma_site_part(
    code: Seq<MetaAsmView>,
    front: Seq<MetaAsmView>,
    part: Seq<MetaAsmView>,
    back: Seq<MetaAsmView>,
    call: Expr,
)
    requires
        code == front + part + back,
        has_site(part, call),
    ensures
        has_site(code, call),
{
    let (at, ctx) = choose|at: int, ctx: AsmCtxView| #[trigger] site_at(part, at, ctx, call);
    let n = call->FunCall_1.len() as nat;
    let site = call_sequence(call->FunCall_0@, gen_args(ctx, call->FunCall_1, n)->Ok_0, n as i64);
    assert(code.subrange(front.len() + at, front.len() + at + site.len()) =~= part.subrange(
        at,
        at + site.len(),
    ));
    assert(site_at(code, front.len() + at, ctx, call));
}

/// The code of an expression holds the call sequence of every call in the
/// expression.
pub proof fn lemma_expr_sites(ctx: AsmCtxView, e: Expr, l_value: bool, call: Expr)
    requires
        call is FunCall,
        occurs_expr(e, call),
        gen_expr(ctx, e, l_value) is Ok,
    ensures
        has_site(gen_expr(ctx, e, l_value)->Ok_0, call),
    decreases e, 0nat,
{
    let code = gen_expr(ctx, e, l_value)->Ok_0;
    if e == call {
        assert(code.subrange(0, code.len() as int) =~= code);
        assert(site_at(code, 0, ctx, call));
    } else {
        match e {
            Expr::BinaryOp(lhs, _, rhs) => {
                let a = gen_expr(ctx, *lhs, false)->Ok_0;
                let b = gen_expr(ctx, *rhs, false)->Ok_0;
                let op = code.subrange(code.len() - 1, code.len() as int);
                if occurs_expr(*lhs, call) {
                    lemma_expr_sites(ctx, *lhs, false, call);
                    assert(code =~= Seq::empty() + a + (b + op));
                    lemma_site_part(code, Seq::empty(), a, b + op, call);
                } else {
                    lemma_expr_sites(ctx, *rhs, false, call);
                    assert(code =~= a + b + op);
                    lemma_site_part(code, a, b, op, call);
                }
            },
            Expr::UnaryOp(_, rhs) => {
                let a = gen_expr(ctx, *rhs, false)->Ok_0;
                let op = code.subrange(code.len() - 1, code.len() as int);
                lemma_expr_sites(ctx, *rhs, false, call);
                assert(code =~= Seq::empty() + a + op);
                lemma_site_part(code, Seq::empty(), a, op, call);
            },
            Expr::FunCall(id, args) => {
                let a = gen_args(ctx, args, args.len() as nat)->Ok_0;
                lemma_args_sites(ctx, args, args.len() as nat, call);
                let head = seq![asm_data(ByteCode::ALLOC, 1)];
                let tail = code.subrange(1 + a.len() as int, code.len() as int);
                assert(code =~= head + a + tail);
                lemma_site_part(code, head, a, tail, call);
            },
            _ => {},
        }
    }
}

proof fn lemma_args_sites(ctx: AsmCtxView, args: Vec<Expr>, n: nat, call: Expr)
    requires
        call is FunCall,
        n <= args.len(),
        occurs_args(args, n, call),
        gen_args(ctx, args, n) is Ok,
    ensures
        has_site(gen_args(ctx, args, n)->Ok_0, call),
    decreases args, n,
{
    if n > 0 {
        let code = gen_args(ctx, args, n)->Ok_0;
        let front = gen_args(ctx, args, (n - 1) as nat)->Ok_0;
        let more = gen_expr(ctx, args[args.len() - n], false)->Ok_0;
        if occurs_args(args, (n - 1) as nat, call) {
            lemma_args_sites(ctx, args, (n - 1) as nat, call);
            assert(code =~= Seq::empty() + front + more);
            lemma_site_part(code, Seq::empty(), front, more, call);
        } else {
            lemma_expr_sites(ctx, args[args.len() - n], false, call);
            assert(code =~= front + more + Seq::empty());
            lemma_site_part(code, front, more, Seq::empty(), call);
        }
    }
}

/// The code of a statement holds the call sequence of every call in the
/// statement.
pub proof fn lemma_stmt_sites(ctx: AsmCtxView, s: Stmt, call: Expr)
    requires
        call is FunCall,
        occurs_stmt(s, call),
        gen_stmt(ctx, s) is Ok,
    ensures
        has_site(gen_stmt(ctx, s)->Ok_0.1, call),
    decreases s, 0nat,
{
    let code = gen_stmt(ctx, s)->Ok_0.1;
    match s {
        Stmt::Block(body, is_scope) => {
            let inner = if is_scope {
                ctx.push_scope()
            } else {
                ctx
            };
            lemma_stmts_sites(inner, body, body.len() as nat, call);
        },
        Stmt::If(test, body, alter) => {
            let inner = ctx.next_label().next_label();
            let t = gen_expr(inner, *test, false)->Ok_0;
            let (c1, b) = gen_stmt(inner, *body)->Ok_0;
            let a = gen_stmt(c1, *alter)->Ok_0.1;
            let jz = seq![asm_label(ByteCode::JUMPZ, ctx.label())];
            let mid = seq![
                asm_label(ByteCode::JUMP, ctx.next_label().label()),
                MetaAsmView::Lbl(ctx.label()),
            ];
            let end = seq![MetaAsmView::Lbl(ctx.next_label().label())];
            assert(code == t + jz + b + mid + a + end);
            if occurs_expr(*test, call) {
                lemma_expr_sites(inner, *test, false, call);
                assert(code =~= Seq::empty() + t + (jz + b + mid + a + end));
                lemma_site_part(code, Seq::empty(), t, jz + b + mid + a + end, call);
            } else if occurs_stmt(*body, call) {
                lemma_stmt_sites(inner, *body, call);
                assert(code =~= (t + jz) + b + (mid + a + end));
                lemma_site_part(code, t + jz, b, mid + a + end, call);
            } else {
                lemma_stmt_sites(c1, *alter, call);
                assert(code =~= (t + jz + b + mid) + a + end);
                lemma_site_part(code, t + jz + b + mid, a, end, call);
            }
        },
        Stmt::While(test, body) => {
            let inner = ctx.next_label().next_label();
            let t = gen_expr(inner, *test, false)->Ok_0;
            let b = gen_stmt(inner, *body)->Ok_0.1;
            let head = seq![MetaAsmView::Lbl(ctx.label())];
            let jz = seq![asm_label(ByteCode::JUMPZ, ctx.next_label().label())];
            let end = seq![
                asm_label(ByteCode::JUMP, ctx.label()),
                MetaAsmView::Lbl(ctx.next_label().label()),
            ];
            assert(code == head + t + jz + b + end);
            if occurs_expr(*test, call) {
                lemma_expr_sites(inner, *test, false, call);
                assert(code =~= head + t + (jz + b + end));
                lemma_site_part(code, head, t, jz + b + end, call);
            } else {
                lemma_stmt_sites(inner, *body, call);
                assert(code =~= (head + t + jz) + b + end);
                lemma_site_part(code, head + t + jz, b, end, call);
            }
        },
        Stmt::Return(Some(value)) => {
            let v = gen_expr(ctx, *value, false)->Ok_0;
            let tail = code.subrange(v.len() as int, code.len() as int);
            lemma_expr_sites(ctx, *value, false, call);
            assert(code =~= Seq::empty() + v + tail);
            lemma_site_part(code, Seq::empty(), v, tail, call);
        },
        Stmt::FunDecl(id, params, body) => {
            let start = ctx.add_fun(id.id@, params.len());
            let c0 = gen_params(start, params@, params.len() as nat)->Ok_0;
            let b = gen_stmt(c0, *body)->Ok_0.1;
            let end = seq![asm_data(ByteCode::RET, 2)];
            lemma_stmt_sites(c0, *body, call);
            assert(code =~= code.subrange(0, 2) + b + end);
            lemma_site_part(code, code.subrange(0, 2), b, end, call);
        },
        Stmt::Assignment(lhs, rhs) => {
            let r = gen_expr(ctx, *rhs, false)->Ok_0;
            let l = gen_expr(ctx, *lhs, true)->Ok_0;
            let tail = seq![asm_inst(ByteCode::STORE), asm_inst(ByteCode::POP)];
            assert(code == r + l + tail);
            if occurs_expr(*rhs, call) {
                lemma_expr_sites(ctx, *rhs, false, call);
                assert(code =~= Seq::empty() + r + (l + tail));
                lemma_site_part(code, Seq::empty(), r, l + tail, call);
            } else {
                lemma_expr_sites(ctx, *lhs, true, call);
                lemma_site_part(code, r, l, tail, call);
            }
        },
        _ => {},
    }
}

proof fn lemma_stmts_sites(ctx: AsmCtxView, body: Vec<Box<Stmt>>, n: nat, call: Expr)
    requires
        call is FunCall,
        n <= body.len(),
        occurs_stmts(body, n, call),
        gen_stmts(ctx, body, n) is Ok,
    ensures
        has_site(gen_stmts(ctx, body, n)->Ok_0.1, call),
    decreases body, n,
{
    if n > 0 {
        let code = gen_stmts(ctx, body, n)->Ok_0.1;
        let (c, front) = gen_stmts(ctx, body, (n - 1) as nat)->Ok_0;
        let more = gen_stmt(c, *body[n - 1])->Ok_0.1;
        if occurs_stmts(body, (n - 1) as nat, call) {
            lemma_stmts_sites(ctx, body, (n - 1) as nat, call);
            assert(code =~= Seq::empty() + front + more);
            lemma_site_part(code, Seq::empty(), front, more, call);
        } else {
            lemma_stmt_sites(c, *body[n - 1], call);
            assert(code =~= front + more + Seq::empty());
            lemma_site_part(code, front, more, Seq::empty(), call);
        }
    }
}

/// The stream that the generator returns for a program holds, for every
/// call in the program, the call sequence of that call: `ALLOC 1` for the
/// result slot, the code of the arguments, `MARK`, `LOADC` of the callee's
/// label, `CALL`, and `SLIDE k` with `k` the number of the arguments.
pub proof fn lemma_call_sites(s: Stmt, md: Seq<EstaStructView>, call: Expr)
    requires
        call is FunCall,
        occurs_stmt(s, call),
        gen_program(AsmCtxView::top_level(md), s) is Ok,
    ensures
        has_site(gen_program(AsmCtxView::top_level(md), s)->Ok_0.1, call),
{
    let ctx = AsmCtxView::top_level(md);
    let stream = gen_program(ctx, s)->Ok_0.1;
    let body = gen_stmt(ctx, s)->Ok_0.1;
    lemma_stmt_sites(ctx, s, call);
    assert(stream =~= prelude() + body + Seq::empty());
    lemma_site_part(stream, prelude(), body, Seq::empty(), call);
}

/// Whether each of the last `n` arguments is pure and has a value.
pub open spec fn pure_args(args: Vec<Expr>, n: nat) -> bool
    decreases args, n,
{
    if n == 0 || n > args.len() {
        true
    } else {
        &&& pure_args(args, (n - 1) as nat)
        &&& pure(args[args.len() - n])
        &&& eval(args[args.len() - n]) is Some
    }
}

/// The values of the last `n` arguments, the last argument first: the
/// order in which a call pushes them.
pub open spec fn arg_values(args: Vec<Expr>, n: nat) -> Seq<i64>
    decreases args, n,
{
    if n == 0 || n > args.len() {
        Seq::empty()
    } else {
        arg_values(args, (n - 1) as nat).push(eval(args[args.len() - n])->Some_0)
    }
}

/// The generator accepts pure arguments, and their code needs no linking.
pub proof fn lemma_pure_args_plain(ctx: AsmCtxView, args: Vec<Expr>, n: nat)
    requires
        n <= args.len(),
        pure_args(args, n),
    ensures
        gen_args(ctx, args, n) is Ok,
        all_plain(gen_args(ctx, args, n)->Ok_0),
        arg_values(args, n).len() == n,
    decreases args, n,
{
    if n > 0 {
        lemma_pure_args_plain(ctx, args, (n - 1) as nat);
        lemma_pure_is_plain(ctx, args[args.len() - n], false);
    }
}

/// The code of pure arguments pushes their values, the last argument
/// first, and leaves the rest of the machine as it was.
pub proof fn lemma_pure_args_run(ctx: AsmCtxView, args: Vec<Expr>, n: nat, s: VMView)
    requires
        n <= args.len(),
        pure_args(args, n),
        at_code(s, plain_code(gen_args(ctx, args, n)->Ok_0)),
    ensures
        s.run(gen_args(ctx, args, n)->Ok_0.len()) == Step::Running(
            VMView {
                stack: s.stack + arg_values(args, n),
                pc: s.pc + gen_args(ctx, args, n)->Ok_0.len(),
                ..s
            },
        ),
    decreases args, n,
{
    lemma_pure_args_plain(ctx, args, n);
    let code = gen_args(ctx, args, n)->Ok_0;
    if n == 0 {
        assert(s.stack + arg_values(args, n) =~= s.stack);
    } else {
        let arg = args[args.len() - n];
        lemma_pure_args_plain(ctx, args, (n - 1) as nat);
        lemma_pure_is_plain(ctx, arg, false);
        let front = gen_args(ctx, args, (n - 1) as nat)->Ok_0;
        let more = gen_expr(ctx, arg, false)->Ok_0;
        let nf = front.len() as int;
        let nm = more.len() as int;
        assert(code == front + more);
        assert(plain_code(front) =~= plain_code(code).subrange(0, nf));
        assert(plain_code(more) =~= plain_code(code).subrange(nf, nf + nm));
        assert(s.code.subrange(s.pc, s.pc + nf) =~= plain_code(code).subrange(0, nf));
        lemma_pure_args_run(ctx, args, (n - 1) as nat, s);
        let s1 = VMView { stack: s.stack + arg_values(args, (n - 1) as nat), pc: s.pc + nf, ..s };
        assert(s1.code.subrange(s1.pc, s1.pc + nm) =~= plain_code(code).subrange(nf, nf + nm));
        lemma_pure_expression_runs(ctx, arg, s1);
        lemma_run_split(s, nf as nat, nm as nat);
        assert(s1.stack.push(eval(arg)->Some_0) =~= s.stack + arg_values(args, n));
    }
}

/// The instructions of a call sequence once it is linked: `ALLOC 1`, the
/// code of the arguments, `MARK`, `LOADC` with the callee's address,
/// `CALL`, and `SLIDE k`.
pub open spec fn linked_site(args: Seq<Inst>, target: i64, k: i64) -> Seq<Inst> {
    seq![Inst { inst: ByteCode::ALLOC, data: Some(1i64) }] + args + seq![
        Inst { inst: ByteCode::MARK, data: None },
        Inst { inst: ByteCode::LOADC, data: Some(target) },
        Inst { inst: ByteCode::CALL, data: None },
        Inst { inst: ByteCode::SLIDE, data: Some(k) },
    ]
}

/// The state in which the callee starts: above the caller's stack lie the
/// result slot, the values of the arguments, the caller's frame pointer
/// and the address of the `SLIDE`; the frame pointer stands above them.
pub open spec fn entered(s: VMView, values: Seq<i64>, steps: int, target: i64) -> VMView {
    VMView {
        stack: (s.stack.push(0i64) + values).push(s.fp as i64).push((s.pc + steps + 4) as i64),
        pc: target as int,
        fp: (s.stack.len() + values.len() + 3) as int,
        ..s
    }
}

/// Whether `back` is a state in which a callee that started in `inside`
/// returns: the program counter stands at `RET 2`, the frame is the one
/// that the call built, and the saved frame pointer, the return address and
/// the `below` cells under the result slot are what they were.
pub open spec fn returns_from(inside: VMView, back: VMView, below: int) -> bool {
    &&& has_inst(back, back.pc, Inst { inst: ByteCode::RET, data: Some(2i64) })
    &&& back.fp == inside.fp
    &&& back.fp <= back.stack.len()
    &&& back.stack[back.fp - 1] == inside.stack[inside.fp - 1]
    &&& back.stack[back.fp - 2] == inside.stack[inside.fp - 2]
    &&& back.stack.take(below) == inside.stack.take(below)
}

/// Whether a machine stands at the linked call sequence of `call`, whose
/// arguments are pure, with room for the result slot and with counters that
/// fit the cells of the stack.
pub open spec fn at_site(s: VMView, ctx: AsmCtxView, call: Expr, target: i64) -> bool {
    let args = call->FunCall_1;
    let k = args.len() as nat;
    &&& call is FunCall
    &&& k <= i64::MAX
    &&& pure_args(args, k)
    &&& at_code(s, linked_site(plain_code(gen_args(ctx, args, k)->Ok_0), target, k as i64))
    &&& 0 <= s.fp <= usize::MAX
    &&& s.fp <= i64::MAX
    &&& 0 <= target <= usize::MAX
    &&& s.stack.len() + 1 <= usize::MAX
    &&& s.code.len() <= usize::MAX
    &&& s.code.len() <= i64::MAX
}

/// The state in which the callee of `call` starts.
pub open spec fn callee_start(s: VMView, ctx: AsmCtxView, call: Expr, target: i64) -> VMView {
    let args = call->FunCall_1;
    let k = args.len() as nat;
    entered(s, arg_values(args, k), gen_args(ctx, args, k)->Ok_0.len() as int, target)
}

/// Reserving a result slot pushes one zero.
proof fn lemma_result_slot(s: VMView)
    requires
        has_inst(s, s.pc, Inst { inst: ByteCode::ALLOC, data: Some(1i64) }),
        s.stack.len() + 1 <= usize::MAX,
    ensures
        s.run(1) == Step::Running(VMView { stack: s.stack.push(0i64), pc: s.pc + 1, ..s }),
{
    reveal_with_fuel(VMView::run, 2);
    assert(s.stack + zeros(1) =~= s.stack.push(0i64));
}

/// A call sequence in generated code reserves the result slot, pushes the
/// values of the arguments and enters the callee with a frame above them.
pub proof fn lemma_call_enters(ctx: AsmCtxView, call: Expr, s: VMView, target: i64)
    requires
        at_site(s, ctx, call, target),
    ensures
        s.run(gen_args(ctx, call->FunCall_1, call->FunCall_1.len() as nat)->Ok_0.len() + 4)
            == Step::Running(callee_start(s, ctx, call, target)),
{
    let args = call->FunCall_1;
    let k = args.len() as nat;
    let a = gen_args(ctx, args, k)->Ok_0;
    let steps = a.len();
    let values = arg_values(args, k);
    let site = linked_site(plain_code(a), target, k as i64);
    lemma_pure_args_plain(ctx, args, k);
    assert forall|i: int| 0 <= i < site.len() implies s.code[s.pc + i] == site[i] by {
        assert(s.code.subrange(s.pc, s.pc + site.len())[i] == site[i]);
    }
    let s1 = VMView { stack: s.stack.push(0i64), pc: s.pc + 1, ..s };
    assert(s.code[s.pc + 0] == site[0]);
    lemma_result_slot(s);
    assert(s1.code.subrange(s1.pc, s1.pc + steps) =~= plain_code(a)) by {
        assert forall|i: int| 0 <= i < steps implies s1.code[s1.pc + i] == plain_code(a)[i] by {
            assert(s.code[s.pc + (1 + i)] == site[1 + i]);
        }
    }
    lemma_pure_args_run(ctx, args, k, s1);
    let s2 = VMView { stack: s1.stack + values, pc: s1.pc + steps, ..s1 };
    lemma_run_split(s, 1, steps);
    assert(s.code[s.pc + (1 + steps)] == site[1 + steps as int]);
    assert(s.code[s.pc + (2 + steps)] == site[2 + steps as int]);
    assert(s.code[s.pc + (3 + steps)] == site[3 + steps as int]);
    lemma_call_builds_frame(s2, target);
    lemma_run_split(s, 1 + steps, 3);
}

/// A call in generated code adds one value to the stack.
///
/// Let a machine stand at the linked call sequence of a call with `k` pure
/// arguments. It reserves the result slot, pushes the values of the
/// arguments and enters the callee. Where the callee, after `m` steps,
/// returns with `RET 2` from the frame that the call built, two steps later
/// the machine stands behind the `SLIDE`, the caller's frame pointer is
/// back in place, and the stack is what it was before the `ALLOC 1` with
/// one value on top: the cell that lay where the callee writes its result.
pub proof fn lemma_call_adds_one(
    ctx: AsmCtxView,
    call: Expr,
    s: VMView,
    target: i64,
    m: nat,
    back: VMView,
)
    requires
        at_site(s, ctx, call, target),
        callee_start(s, ctx, call, target).run(m) == Step::Running(back),
        returns_from(callee_start(s, ctx, call, target), back, s.stack.len() as int),
    ensures
        ({
            let steps = gen_args(ctx, call->FunCall_1, call->FunCall_1.len() as nat)->Ok_0.len();
            let after = VMView {
                stack: s.stack.push(back.stack[back.fp - 3]),
                pc: s.pc + steps + 5,
                fp: s.fp,
                ..back
            };
            &&& s.run(steps + m + 6) == Step::Running(after)
            &&& after.stack.len() == s.stack.len() + 1
            &&& after.code == s.code
        }),
{
    let args = call->FunCall_1;
    let k = args.len() as nat;
    let a = gen_args(ctx, args, k)->Ok_0;
    let steps = a.len();
    let values = arg_values(args, k);
    let site = linked_site(plain_code(a), target, k as i64);
    let inside = callee_start(s, ctx, call, target);
    lemma_pure_args_plain(ctx, args, k);
    lemma_call_enters(ctx, call, s, target);
    lemma_run_keeps_code(inside, m);
    lemma_run_split(s, steps + 4, m);
    assert(s.code.subrange(s.pc, s.pc + site.len())[4 + steps as int] == site[4 + steps as int]);
    assert(inside.stack[inside.fp - 1] == (s.pc + steps + 4) as i64);
    assert(inside.stack[inside.fp - 2] == s.fp as i64);
    assert(inside.stack.take(s.stack.len() as int) =~= s.stack);
    assert(back.stack.take(back.fp - 3 - k) =~= s.stack);
    lemma_return_and_slide(back, k as i64);
    lemma_run_split(s, steps + 4 + m, 2);
}

/// The instructions of a part of a stream that holds no label follow, in
/// order, the instructions of what stands before the part.
proof fn lemma_insts_segment(stream: Seq<MetaAsmView>, at: nat, n: nat)
    requires
        at + n <= stream.len(),
        forall|i: int| at <= i < at + n ==> (#[trigger] stream[i]) is Inst,
    ensures
        insts_of(stream, at + n).len() == insts_of(stream, at).len() + n,
        forall|i: int|
            0 <= i < n ==> MetaAsmView::Inst(
                #[trigger] insts_of(stream, at + n)[insts_of(stream, at).len() + i],
            ) == stream[at + i],
    decreases n,
{
    if n > 0 {
        lemma_insts_segment(stream, at, (n - 1) as nat);
        assert(stream[at + n - 1] is Inst);
        let before = insts_of(stream, (at + n - 1) as nat);
        let base = insts_of(stream, at).len();
        assert forall|i: int| 0 <= i < n implies MetaAsmView::Inst(
            #[trigger] insts_of(stream, at + n)[base + i],
        ) == stream[at + i] by {
            if i < n - 1 {
                assert(insts_of(stream, at + n)[base + i] == before[base + i]);
            }
        }
    }
}

/// The instructions of the first `n` items of a stream are the first
/// instructions of the stream.
pub proof fn lemma_insts_prefix(stream: Seq<MetaAsmView>, n: nat, m: nat)
    requires
        n <= m <= stream.len(),
    ensures
        insts_of(stream, n).len() <= insts_of(stream, m).len(),
        forall|i: int|
            0 <= i < insts_of(stream, n).len() ==> insts_of(stream, m)[i] == #[trigger] insts_of(
                stream,
                n,
            )[i],
    decreases m,
{
    if n < m {
        lemma_insts_prefix(stream, n, (m - 1) as nat);
    }
}

/// Whether linked code holds, from the index `at` on, the linked call
/// sequence of `call`, with the code of the arguments as generated in the
/// state `ctx` and with `target` for the callee's address.
pub open spec fn linked_at(code: Seq<Inst>, at: int, ctx: AsmCtxView, call: Expr, target: i64) -> bool {
    let args = call->FunCall_1;
    let k = args.len() as nat;
    let site = linked_site(plain_code(gen_args(ctx, args, k)->Ok_0), target, k as i64);
    &&& 0 <= at
    &&& at + site.len() <= code.len()
    &&& code.subrange(at, at + site.len()) == site
}

/// The link pass turns the call sequence of a call with pure arguments into
/// the linked call sequence, with the position of the callee's label for
/// its address.
pub proof fn lemma_site_links(
    stream: Seq<MetaAsmView>,
    locals: Map<Seq<char>, usize>,
    at: int,
    ctx: AsmCtxView,
    call: Expr,
)
    requires
        link(stream, locals) is Ok,
        site_at(stream, at, ctx, call),
        pure_args(call->FunCall_1, call->FunCall_1.len() as nat),
    ensures
        linked_at(
            link(stream, locals)->Ok_0,
            insts_of(stream, at as nat).len() as int,
            ctx,
            call,
            label_offsets(stream, stream.len())[call->FunCall_0@] as i64,
        ),
{
    let args = call->FunCall_1;
    let k = args.len() as nat;
    let a = gen_args(ctx, args, k)->Ok_0;
    let part = call_sequence(call->FunCall_0@, a, k as i64);
    let n = part.len();
    let insts = insts_of(stream, stream.len());
    let offsets = label_offsets(stream, stream.len());
    let target = offsets[call->FunCall_0@] as i64;
    let code = link(stream, locals)->Ok_0;
    let base = insts_of(stream, at as nat).len() as int;
    let site = linked_site(plain_code(a), target, k as i64);
    lemma_pure_args_plain(ctx, args, k);
    assert forall|i: int| 0 <= i < n implies stream[at + i] == part[i] by {
        assert(stream.subrange(at, at + n)[i] == part[i]);
    }
    assert forall|i: int| at <= i < at + n implies (#[trigger] stream[i]) is Inst by {
        assert(stream[at + (i - at)] == part[i - at]);
        if 1 <= i - at < 1 + a.len() {
            assert(part[i - at] == a[i - at - 1]);
            assert(plain(a[i - at - 1]) is Some);
        }
    }
    lemma_insts_segment(stream, at as nat, n);
    lemma_insts_prefix(stream, (at + n) as nat, stream.len());
    lemma_resolved_items(insts, offsets, locals, insts.len());
    assert(site.len() == n);
    assert forall|i: int| 0 <= i < n implies code[base + i] == site[i] by {
        let upto = insts_of(stream, (at + n) as nat);
        assert(MetaAsmView::Inst(upto[base + i]) == stream[at + i]);
        assert(insts[base + i] == upto[base + i]);
        assert(resolve(insts[base + i], offsets, locals) == Ok::<Inst, CompileErrorView>(
            code[base + i],
        ));
        let m = a.len() as int;
        if i == 0 {
            assert(part[i] == asm_data(ByteCode::ALLOC, 1));
        } else if i < 1 + m {
            assert(part[i] == a[i - 1]);
            assert(plain(a[i - 1]) is Some);
            assert(site[i] == plain_code(a)[i - 1]);
        } else if i == 1 + m {
            assert(part[i] == asm_inst(ByteCode::MARK));
            assert(site[i] == Inst { inst: ByteCode::MARK, data: None });
        } else if i == 2 + m {
            assert(part[i] == asm_label(ByteCode::LOADC, call->FunCall_0@));
            assert(site[i] == Inst { inst: ByteCode::LOADC, data: Some(target) });
        } else if i == 3 + m {
            assert(part[i] == asm_inst(ByteCode::CALL));
            assert(site[i] == Inst { inst: ByteCode::CALL, data: None });
        } else {
            assert(part[i] == asm_data(ByteCode::SLIDE, k as i64));
            assert(site[i] == Inst { inst: ByteCode::SLIDE, data: Some(k as i64) });
        }
    }
    assert(code.subrange(base, base + n) =~= site);
}

/// The code of a compiled program holds, for every call with pure
/// arguments in the program, the linked call sequence of that call: a
/// machine that runs the program and stands there meets what
/// `lemma_call_adds_one` asks of the code.
pub proof fn lemma_program_call(s: Stmt, md: Seq<EstaStructView>, call: Expr)
    requires
        call is FunCall,
        occurs_stmt(s, call),
        pure_args(call->FunCall_1, call->FunCall_1.len() as nat),
        compiled(s, md) is Ok,
    ensures
        exists|at: int, ctx: AsmCtxView| #[trigger]
            linked_at(
                compiled(s, md)->Ok_0.code,
                at,
                ctx,
                call,
                label_offsets(
                    gen_program(AsmCtxView::top_level(md), s)->Ok_0.1,
                    gen_program(AsmCtxView::top_level(md), s)->Ok_0.1.len(),
                )[call->FunCall_0@] as i64,
            ),
{
    let top = AsmCtxView::top_level(md);
    let stream = gen_program(top, s)->Ok_0.1;
    let locals = gen_program(top, s)->Ok_0.0.locals;
    lemma_call_sites(s, md, call);
    let (at, ctx) = choose|at: int, ctx: AsmCtxView| #[trigger] site_at(stream, at, ctx, call);
    lemma_site_links(stream, locals, at, ctx, call);
    assert(linked_at(
        compiled(s, md)->Ok_0.code,
        insts_of(stream, at as nat).len() as int,
        ctx,
        call,
        label_offsets(stream, stream.len())[call->FunCall_0@] as i64,
    ));
}

} // verus!
