//! What holds of the code of a whole program: which operand each `ALLOC`
//! gets, and that an orderly program whose calls name declared functions
//! links.
use vstd::prelude::*;
use crate::backend::assembly_context::{global_name, AsmCtxView};
use crate::backend::codegen::{
    entry_name, gen_args, gen_expr, gen_params, gen_program, gen_stmt, gen_stmts, prelude,
};
use crate::backend::compiled;
use crate::backend::guarantees::{
    declared, declares, declares_in, flat_stmt, flat_stmts,
    lemma_function_locals, lemma_keeps_wf, lemma_link_resolves, untouched,
};
use crate::backend::guarantees::{declared_in, sound_stmt, uses_stmt};
use crate::backend::calls::{holds_at, lemma_insts_prefix};
use crate::backend::labels::{
    calls_stmt, lemma_declared_marked, lemma_marked_offset, lemma_marks_part, lemma_stmt_refs,
    marks, ref_item, settled,
};
use crate::backend::limits::{
    lemma_generator_outcomes, names_used, orderly, orderly_all, table_fits, weight_args,
    weight_expr, weight_stmt, weight_stmts,
};
use crate::backend::program::{insts_of, label_offsets, resolve, resolved};
use crate::backend::program::lemma_resolved_items;
use crate::error::CompileErrorView;
use crate::frontend::ast::{EstaStructView, Expr, Identifier, Stmt};
use crate::vm::bytecode::{
    asm_label, asm_local_alloc, ByteCode, Inst, MetaAsmView, MetaInstView, MetaVarView,
};

verus! {

/// The count of locals with which a statement leaves the name `f`: the
/// number of variable declarations in the body of the last function named
/// `f` that the statement declares, 0 where a struct of that name comes
/// last, and `None` where the statement declares nothing named `f`.
pub open spec fn locals_after(s: Stmt, f: Seq<char>) -> Option<nat>
    decreases s, 0nat,
{
    match s {
        Stmt::Block(body, _) => locals_after_in(body, body.len() as nat, f),
        Stmt::If(_, body, alter) => match locals_after(*alter, f) {
            Some(n) => Some(n),
            None => locals_after(*body, f),
        },
        Stmt::While(_, body) => locals_after(*body, f),
        Stmt::FunDecl(id, _, body) => if id.id@ == f {
            Some(declared(*body))
        } else {
            None
        },
        Stmt::Struct(id, _) => if id@ == f {
            Some(0nat)
        } else {
            None
        },
        _ => None,
    }
}

/// `locals_after` of the first `n` statements of a block.
pub open spec fn locals_after_in(body: Vec<Box<Stmt>>, n: nat, f: Seq<char>) -> Option<nat>
    decreases body, n,
{
    if n == 0 || n > body.len() {
        None
    } else {
        match locals_after(*body[n - 1], f) {
            Some(k) => Some(k),
            None => locals_after_in(body, (n - 1) as nat, f),
        }
    }
}

/// A statement inside a function of an orderly program declares no
/// function and no struct.
pub proof fn lemma_orderly_flat(s: Stmt, f: Seq<char>)
    requires
        orderly(s, false),
    ensures
        flat_stmt(s),
        !declares(s, f),
        locals_after(s, f) is None,
    decreases s, 0nat,
{
    match s {
        Stmt::Block(body, _) => {
            lemma_orderly_flat_in(body, body.len() as nat, f);
        },
        Stmt::If(_, body, alter) => {
            lemma_orderly_flat(*body, f);
            lemma_orderly_flat(*alter, f);
        },
        Stmt::While(_, body) => {
            lemma_orderly_flat(*body, f);
        },
        _ => {},
    }
}

proof fn lemma_orderly_flat_in(body: Vec<Box<Stmt>>, n: nat, f: Seq<char>)
    requires
        orderly_all(body, n, false),
        n <= body.len(),
    ensures
        flat_stmts(body, n),
        !declares_in(body, n, f),
        locals_after_in(body, n, f) is None,
    decreases body, n,
{
    if n > 0 {
        lemma_orderly_flat_in(body, (n - 1) as nat, f);
        lemma_orderly_flat(*body[n - 1], f);
    }
}

/// Whether `after` holds for `f` the count that `expected` names, or, where
/// it names none, the count that `before` holds.
pub open spec fn count_is(
    before: AsmCtxView,
    after: AsmCtxView,
    f: Seq<char>,
    expected: Option<nat>,
) -> bool {
    &&& after.wf()
    &&& after.base == before.base
    &&& match expected {
        Some(n) => after.locals.contains_key(f) && after.locals[f] == n,
        None => after.locals.contains_key(f) == before.locals.contains_key(f) && after.locals[f]
            == before.locals[f],
    }
}

proof fn lemma_params_keep(ctx: AsmCtxView, params: Seq<Identifier>, n: nat)
    requires
        ctx.wf(),
        n <= params.len(),
        gen_params(ctx, params, n) is Ok,
    ensures
        gen_params(ctx, params, n)->Ok_0.wf(),
        gen_params(ctx, params, n)->Ok_0.base == ctx.base,
        gen_params(ctx, params, n)->Ok_0.locals == ctx.locals,
    decreases n,
{
    if n > 0 {
        lemma_params_keep(ctx, params, (n - 1) as nat);
    }
}

/// In an orderly program the generator leaves for every name the count of
/// locals of the last function of that name: each variable declaration in
/// the body of that function counted once.
pub proof fn lemma_locals_after(ctx: AsmCtxView, s: Stmt, f: Seq<char>)
    requires
        ctx.wf(),
        untouched(ctx, f),
        orderly(s, ctx.base == global_name()),
        gen_stmt(ctx, s) is Ok,
    ensures
        count_is(ctx, gen_stmt(ctx, s)->Ok_0.0, f, locals_after(s, f)),
    decreases s, 0nat,
{
    lemma_keeps_wf(ctx, s);
    match s {
        Stmt::Block(body, is_scope) => {
            let inner = if is_scope {
                ctx.push_scope()
            } else {
                ctx
            };
            lemma_locals_after_in(inner, body, body.len() as nat, f);
        },
        Stmt::If(_, body, alter) => {
            let inner = ctx.next_label().next_label();
            lemma_locals_after(inner, *body, f);
            lemma_locals_after(gen_stmt(inner, *body)->Ok_0.0, *alter, f);
        },
        Stmt::While(_, body) => {
            let inner = ctx.next_label().next_label();
            lemma_locals_after(inner, *body, f);
        },
        Stmt::FunDecl(id, params, body) => {
            lemma_orderly_flat(*body, f);
            if id.id@ == f {
                lemma_function_locals(ctx, s);
            } else {
                let start = ctx.add_fun(id.id@, params.len());
                lemma_params_keep(start, params@, params.len() as nat);
                let c0 = gen_params(start, params@, params.len() as nat)->Ok_0;
                lemma_locals_after(c0, *body, f);
            }
        },
        _ => {},
    }
}

proof fn lemma_locals_after_in(ctx: AsmCtxView, body: Vec<Box<Stmt>>, n: nat, f: Seq<char>)
    requires
        ctx.wf(),
        untouched(ctx, f),
        orderly_all(body, n, ctx.base == global_name()),
        n <= body.len(),
        gen_stmts(ctx, body, n) is Ok,
    ensures
        count_is(ctx, gen_stmts(ctx, body, n)->Ok_0.0, f, locals_after_in(body, n, f)),
    decreases body, n,
{
    if n > 0 {
        lemma_locals_after_in(ctx, body, (n - 1) as nat, f);
        lemma_locals_after(gen_stmts(ctx, body, (n - 1) as nat)->Ok_0.0, *body[n - 1], f);
    }
}

/// Whether a stream item is no `ALLOC` and asks for no count of locals, or
/// is the `ALLOC 1` of a result slot, or is the `ALLOC` of a function that
/// `known` holds.
pub open spec fn alloc_item(item: MetaAsmView, known: spec_fn(Seq<char>) -> bool) -> bool {
    match item {
        MetaAsmView::Inst(i) => match i.var {
            MetaVarView::Data(d) => i.inst == ByteCode::ALLOC ==> d == 1,
            MetaVarView::LocalAlloc(f) => i.inst == ByteCode::ALLOC && known(f),
            _ => i.inst != ByteCode::ALLOC,
        },
        _ => true,
    }
}

/// Whether `alloc_item` holds of every item of a stream.
pub open spec fn allocs_known(stream: Seq<MetaAsmView>, known: spec_fn(Seq<char>) -> bool) -> bool {
    forall|i: int| 0 <= i < stream.len() ==> alloc_item(#[trigger] stream[i], known)
}

/// The code of an expression reserves result slots alone.
pub proof fn lemma_expr_allocs(
    ctx: AsmCtxView,
    e: Expr,
    l_value: bool,
    known: spec_fn(Seq<char>) -> bool,
)
    ensures
        gen_expr(ctx, e, l_value) matches Ok(code) ==> allocs_known(code, known),
    decreases e, 0nat,
{
    match e {
        Expr::BinaryOp(lhs, _, rhs) => {
            lemma_expr_allocs(ctx, *lhs, false, known);
            lemma_expr_allocs(ctx, *rhs, false, known);
        },
        Expr::UnaryOp(_, rhs) => {
            lemma_expr_allocs(ctx, *rhs, false, known);
        },
        Expr::FunCall(_, args) => {
            lemma_args_allocs(ctx, args, args.len() as nat, known);
        },
        _ => {},
    }
}

proof fn lemma_args_allocs(
    ctx: AsmCtxView,
    args: Vec<Expr>,
    n: nat,
    known: spec_fn(Seq<char>) -> bool,
)
    requires
        n <= args.len(),
    ensures
        gen_args(ctx, args, n) matches Ok(code) ==> allocs_known(code, known),
    decreases args, n,
{
    if n > 0 {
        lemma_args_allocs(ctx, args, (n - 1) as nat, known);
        lemma_expr_allocs(ctx, args[args.len() - n], false, known);
    }
}

/// The names that a statement declares, as a predicate: those for which
/// `locals_after` gives a count.
pub open spec fn declared_by(s: Stmt) -> spec_fn(Seq<char>) -> bool {
    |f: Seq<char>| f != global_name() && locals_after(s, f) is Some
}

/// `declared_by` for the first `n` statements of a block.
pub open spec fn declared_among(body: Vec<Box<Stmt>>, n: nat) -> spec_fn(Seq<char>) -> bool {
    |f: Seq<char>| f != global_name() && locals_after_in(body, n, f) is Some
}

proof fn lemma_allocs_widen(
    code: Seq<MetaAsmView>,
    fewer: spec_fn(Seq<char>) -> bool,
    more: spec_fn(Seq<char>) -> bool,
)
    requires
        allocs_known(code, fewer),
        forall|f: Seq<char>| #[trigger] fewer(f) ==> more(f),
    ensures
        allocs_known(code, more),
{
    assert forall|i: int| 0 <= i < code.len() implies alloc_item(#[trigger] code[i], more) by {
        assert(alloc_item(code[i], fewer));
    }
}

proof fn lemma_allocs_join(
    front: Seq<MetaAsmView>,
    back: Seq<MetaAsmView>,
    known: spec_fn(Seq<char>) -> bool,
)
    requires
        allocs_known(front, known),
        allocs_known(back, known),
    ensures
        allocs_known(front + back, known),
{
    assert forall|i: int| 0 <= i < (front + back).len() implies alloc_item(
        #[trigger] (front + back)[i],
        known,
    ) by {
        if i < front.len() {
            assert(alloc_item(front[i], known));
        } else {
            assert(alloc_item(back[i - front.len()], known));
        }
    }
}

proof fn lemma_if_allocs(ctx: AsmCtxView, s: Stmt, top: bool)
    requires
        s is If,
        orderly(s, top),
        gen_stmt(ctx, s) is Ok,
        ({
            let inner = ctx.next_label().next_label();
            &&& allocs_known(gen_stmt(inner, *s->If_1)->Ok_0.1, declared_by(*s->If_1))
            &&& allocs_known(
                gen_stmt(gen_stmt(inner, *s->If_1)->Ok_0.0, *s->If_2)->Ok_0.1,
                declared_by(*s->If_2),
            )
        }),
    ensures
        allocs_known(gen_stmt(ctx, s)->Ok_0.1, declared_by(s)),
{
    let known = declared_by(s);
    let inner = ctx.next_label().next_label();
    let t = gen_expr(inner, *s->If_0, false)->Ok_0;
    let (c1, b) = gen_stmt(inner, *s->If_1)->Ok_0;
    let a = gen_stmt(c1, *s->If_2)->Ok_0.1;
    lemma_expr_allocs(inner, *s->If_0, false, known);
    lemma_allocs_widen(b, declared_by(*s->If_1), known);
    lemma_allocs_widen(a, declared_by(*s->If_2), known);
    let jz = seq![asm_label(ByteCode::JUMPZ, ctx.label())];
    let mid = seq![
        asm_label(ByteCode::JUMP, ctx.next_label().label()),
        MetaAsmView::Lbl(ctx.label()),
    ];
    let end = seq![MetaAsmView::Lbl(ctx.next_label().label())];
    lemma_allocs_join(t, jz, known);
    lemma_allocs_join(t + jz, b, known);
    lemma_allocs_join(t + jz + b, mid, known);
    lemma_allocs_join(t + jz + b + mid, a, known);
    lemma_allocs_join(t + jz + b + mid + a, end, known);
}

proof fn lemma_while_allocs(ctx: AsmCtxView, s: Stmt, top: bool)
    requires
        s is While,
        orderly(s, top),
        gen_stmt(ctx, s) is Ok,
        allocs_known(
            gen_stmt(ctx.next_label().next_label(), *s->While_1)->Ok_0.1,
            declared_by(*s->While_1),
        ),
    ensures
        allocs_known(gen_stmt(ctx, s)->Ok_0.1, declared_by(s)),
{
    let known = declared_by(s);
    let inner = ctx.next_label().next_label();
    let t = gen_expr(inner, *s->While_0, false)->Ok_0;
    let b = gen_stmt(inner, *s->While_1)->Ok_0.1;
    lemma_expr_allocs(inner, *s->While_0, false, known);
    lemma_allocs_widen(b, declared_by(*s->While_1), known);
    let head = seq![MetaAsmView::Lbl(ctx.label())];
    let jz = seq![asm_label(ByteCode::JUMPZ, ctx.next_label().label())];
    let end = seq![
        asm_label(ByteCode::JUMP, ctx.label()),
        MetaAsmView::Lbl(ctx.next_label().label()),
    ];
    lemma_allocs_join(head, t, known);
    lemma_allocs_join(head + t, jz, known);
    lemma_allocs_join(head + t + jz, b, known);
    lemma_allocs_join(head + t + jz + b, end, known);
}

proof fn lemma_fun_allocs(ctx: AsmCtxView, s: Stmt)
    requires
        s is FunDecl,
        orderly(s, true),
        gen_stmt(ctx, s) is Ok,
        allocs_known(
            gen_stmt(
                gen_params(
                    ctx.add_fun(s->FunDecl_0.id@, s->FunDecl_1.len()),
                    s->FunDecl_1@,
                    s->FunDecl_1.len() as nat,
                )->Ok_0,
                *s->FunDecl_2,
            )->Ok_0.1,
            declared_by(*s->FunDecl_2),
        ),
    ensures
        allocs_known(gen_stmt(ctx, s)->Ok_0.1, declared_by(s)),
{
    let known = declared_by(s);
    let code = gen_stmt(ctx, s)->Ok_0.1;
    let start = ctx.add_fun(s->FunDecl_0.id@, s->FunDecl_1.len());
    let c0 = gen_params(start, s->FunDecl_1@, s->FunDecl_1.len() as nat)->Ok_0;
    let b = gen_stmt(c0, *s->FunDecl_2)->Ok_0.1;
    assert forall|i: int| 0 <= i < code.len() implies alloc_item(#[trigger] code[i], known) by {
        if 2 <= i < 2 + b.len() {
            assert(code[i] == b[i - 2]);
            assert(alloc_item(b[i - 2], declared_by(*s->FunDecl_2)));
            match b[i - 2] {
                MetaAsmView::Inst(m) => match m.var {
                    MetaVarView::LocalAlloc(g) => {
                        lemma_orderly_flat(*s->FunDecl_2, g);
                    },
                    _ => {},
                },
                _ => {},
            }
        }
    }
}

/// Every `ALLOC` in the code of a statement of an orderly program is the
/// `ALLOC 1` of a result slot or the `ALLOC` at the start of a function
/// that the statement declares.
pub proof fn lemma_stmt_allocs(ctx: AsmCtxView, s: Stmt, top: bool)
    requires
        orderly(s, top),
    ensures
        gen_stmt(ctx, s) matches Ok((_, code)) ==> allocs_known(code, declared_by(s)),
    decreases s, 0nat,
{
    let known = declared_by(s);
    if gen_stmt(ctx, s) is Ok {
        match s {
            Stmt::Block(body, is_scope) => {
                let inner = if is_scope {
                    ctx.push_scope()
                } else {
                    ctx
                };
                lemma_stmts_allocs(inner, body, body.len() as nat, top);
                lemma_allocs_widen(
                    gen_stmts(inner, body, body.len() as nat)->Ok_0.1,
                    declared_among(body, body.len() as nat),
                    known,
                );
            },
            Stmt::If(test, body, alter) => {
                let inner = ctx.next_label().next_label();
                lemma_stmt_allocs(inner, *body, top);
                lemma_stmt_allocs(gen_stmt(inner, *body)->Ok_0.0, *alter, top);
                lemma_if_allocs(ctx, s, top);
            },
            Stmt::While(test, body) => {
                let inner = ctx.next_label().next_label();
                lemma_stmt_allocs(inner, *body, top);
                lemma_while_allocs(ctx, s, top);
            },
            Stmt::Return(Some(value)) => {
                lemma_expr_allocs(ctx, *value, false, known);
            },
            Stmt::FunDecl(id, params, body) => {
                let start = ctx.add_fun(id.id@, params.len());
                lemma_stmt_allocs(
                    gen_params(start, params@, params.len() as nat)->Ok_0,
                    *body,
                    false,
                );
                lemma_fun_allocs(ctx, s);
            },
            Stmt::Assignment(lhs, rhs) => {
                lemma_expr_allocs(ctx, *rhs, false, known);
                lemma_expr_allocs(ctx, *lhs, true, known);
            },
            _ => {},
        }
    }
}

proof fn lemma_stmts_allocs(ctx: AsmCtxView, body: Vec<Box<Stmt>>, n: nat, top: bool)
    requires
        orderly_all(body, n, top),
        n <= body.len(),
    ensures
        gen_stmts(ctx, body, n) matches Ok((_, code)) ==> allocs_known(
            code,
            declared_among(body, n),
        ),
    decreases body, n,
{
    if n > 0 && gen_stmts(ctx, body, n) is Ok {
        let (c, front) = gen_stmts(ctx, body, (n - 1) as nat)->Ok_0;
        let more = gen_stmt(c, *body[n - 1])->Ok_0.1;
        lemma_stmts_allocs(ctx, body, (n - 1) as nat, top);
        lemma_stmt_allocs(c, *body[n - 1], top);
        lemma_allocs_widen(front, declared_among(body, (n - 1) as nat), declared_among(body, n));
        lemma_allocs_widen(more, declared_by(*body[n - 1]), declared_among(body, n));
        lemma_allocs_join(front, more, declared_among(body, n));
    }
}

/// What holds of every item of a stream holds of every instruction of the
/// stream.
pub proof fn lemma_insts_satisfy(
    stream: Seq<MetaAsmView>,
    n: nat,
    holds: spec_fn(MetaAsmView) -> bool,
)
    requires
        n <= stream.len(),
        forall|i: int| 0 <= i < stream.len() ==> holds(#[trigger] stream[i]),
    ensures
        forall|k: int|
            0 <= k < insts_of(stream, n).len() ==> holds(
                MetaAsmView::Inst(#[trigger] insts_of(stream, n)[k]),
            ),
    decreases n,
{
    if n > 0 {
        lemma_insts_satisfy(stream, (n - 1) as nat, holds);
        assert(holds(stream[n - 1]));
    }
}

/// In the code of an orderly program every `ALLOC` is either the `ALLOC 1`
/// that reserves a result slot, at a call or in the bootstrap, or the
/// `ALLOC` at the start of a function; the latter reserves exactly as many
/// cells as the body of the function declares variables, at any depth.
/// Where a name is declared more than once, the last declaration counts.
pub proof fn lemma_alloc_operands(s: Stmt, md: Seq<EstaStructView>)
    requires
        orderly(s, true),
        compiled(s, md) is Ok,
    ensures
        ({
            let stream = gen_program(AsmCtxView::top_level(md), s)->Ok_0.1;
            let insts = insts_of(stream, stream.len());
            let code = compiled(s, md)->Ok_0.code;
            &&& code.len() == insts.len()
            &&& forall|k: int|
                0 <= k < code.len() && (#[trigger] code[k]).inst == ByteCode::ALLOC
                    ==> match insts[k].var {
                    MetaVarView::Data(d) => code[k].data == Some(1i64),
                    MetaVarView::LocalAlloc(f) => locals_after(s, f) is Some && locals_after(
                        s,
                        f,
                    )->Some_0 <= i64::MAX && code[k].data == Some(
                        locals_after(s, f)->Some_0 as i64,
                    ),
                    _ => false,
                }
        }),
{
    let ctx = AsmCtxView::top_level(md);
    let after = gen_program(ctx, s)->Ok_0.0;
    let stream = gen_program(ctx, s)->Ok_0.1;
    let body = gen_stmt(ctx, s)->Ok_0.1;
    let insts = insts_of(stream, stream.len());
    let code = compiled(s, md)->Ok_0.code;
    let known = declared_by(s);
    let holds = |item: MetaAsmView| alloc_item(item, known);
    lemma_stmt_allocs(ctx, s, true);
    assert forall|i: int| 0 <= i < stream.len() implies holds(#[trigger] stream[i]) by {
        if i >= prelude().len() {
            assert(stream[i] == body[i - prelude().len()]);
            assert(alloc_item(body[i - prelude().len()], known));
        }
    }
    lemma_insts_satisfy(stream, stream.len(), holds);
    lemma_link_resolves(stream, after.locals);
    assert forall|k: int|
        0 <= k < code.len() && (#[trigger] code[k]).inst == ByteCode::ALLOC implies match insts[k].var {
        MetaVarView::Data(d) => code[k].data == Some(1i64),
        MetaVarView::LocalAlloc(f) => locals_after(s, f) is Some && locals_after(s, f)->Some_0
            <= i64::MAX && code[k].data == Some(locals_after(s, f)->Some_0 as i64),
        _ => false,
    } by {
        assert(holds(MetaAsmView::Inst(insts[k])));
        assert(code[k].inst == insts[k].inst);
        match insts[k].var {
            MetaVarView::LocalAlloc(f) => {
                lemma_locals_after(ctx, s, f);
            },
            _ => {},
        }
    }
}

/// The code of an expression holds at most five items for each node.
pub proof fn lemma_expr_len(ctx: AsmCtxView, e: Expr, l_value: bool)
    ensures
        gen_expr(ctx, e, l_value) matches Ok(code) ==> code.len() <= 5 * weight_expr(e),
    decreases e, 0nat,
{
    match e {
        Expr::BinaryOp(lhs, _, rhs) => {
            lemma_expr_len(ctx, *lhs, false);
            lemma_expr_len(ctx, *rhs, false);
        },
        Expr::UnaryOp(_, rhs) => {
            lemma_expr_len(ctx, *rhs, false);
        },
        Expr::FunCall(_, args) => {
            lemma_args_len(ctx, args, args.len() as nat);
        },
        _ => {},
    }
}

proof fn lemma_args_len(ctx: AsmCtxView, args: Vec<Expr>, n: nat)
    requires
        n <= args.len(),
    ensures
        gen_args(ctx, args, n) matches Ok(code) ==> code.len() <= 5 * weight_args(args, n),
    decreases args, n,
{
    if n > 0 {
        lemma_args_len(ctx, args, (n - 1) as nat);
        lemma_expr_len(ctx, args[args.len() - n], false);
    }
}

/// The code of a statement holds at most twenty items for each node.
pub proof fn lemma_stmt_len(ctx: AsmCtxView, s: Stmt)
    ensures
        gen_stmt(ctx, s) matches Ok((_, code)) ==> code.len() <= 20 * weight_stmt(s),
    decreases s, 0nat,
{
    match s {
        Stmt::Block(body, is_scope) => {
            let inner = if is_scope {
                ctx.push_scope()
            } else {
                ctx
            };
            lemma_stmts_len(inner, body, body.len() as nat);
        },
        Stmt::If(test, body, alter) => {
            let inner = ctx.next_label().next_label();
            lemma_expr_len(inner, *test, false);
            lemma_stmt_len(inner, *body);
            match gen_stmt(inner, *body) {
                Ok((c1, _)) => {
                    lemma_stmt_len(c1, *alter);
                },
                Err(_) => {},
            }
        },
        Stmt::While(test, body) => {
            let inner = ctx.next_label().next_label();
            lemma_expr_len(inner, *test, false);
            lemma_stmt_len(inner, *body);
        },
        Stmt::Return(Some(value)) => {
            lemma_expr_len(ctx, *value, false);
        },
        Stmt::FunDecl(id, params, body) => {
            let start = ctx.add_fun(id.id@, params.len());
            match gen_params(start, params@, params.len() as nat) {
                Ok(c0) => {
                    lemma_stmt_len(c0, *body);
                },
                Err(_) => {},
            }
        },
        Stmt::Assignment(lhs, rhs) => {
            lemma_expr_len(ctx, *rhs, false);
            lemma_expr_len(ctx, *lhs, true);
        },
        _ => {},
    }
}

proof fn lemma_stmts_len(ctx: AsmCtxView, body: Vec<Box<Stmt>>, n: nat)
    requires
        n <= body.len(),
    ensures
        gen_stmts(ctx, body, n) matches Ok((_, code)) ==> code.len() <= 20 * weight_stmts(body, n),
    decreases body, n,
{
    if n > 0 {
        lemma_stmts_len(ctx, body, (n - 1) as nat);
        match gen_stmts(ctx, body, (n - 1) as nat) {
            Ok((c, _)) => {
                lemma_stmt_len(c, *body[n - 1]);
            },
            Err(_) => {},
        }
    }
}

/// A statement declares no more variables than it has nodes.
pub proof fn lemma_declared_bound(s: Stmt)
    ensures
        declared(s) <= weight_stmt(s),
    decreases s, 0nat,
{
    match s {
        Stmt::Block(body, _) => {
            lemma_declared_bound_in(body, body.len() as nat);
        },
        Stmt::If(_, body, alter) => {
            lemma_declared_bound(*body);
            lemma_declared_bound(*alter);
        },
        Stmt::While(_, body) => {
            lemma_declared_bound(*body);
        },
        Stmt::FunDecl(_, _, body) => {
            lemma_declared_bound(*body);
        },
        _ => {},
    }
}

proof fn lemma_declared_bound_in(body: Vec<Box<Stmt>>, n: nat)
    requires
        n <= body.len(),
    ensures
        declared_in(body, n) <= weight_stmts(body, n),
    decreases body, n,
{
    if n > 0 {
        lemma_declared_bound_in(body, (n - 1) as nat);
        lemma_declared_bound(*body[n - 1]);
    }
}

/// No function has more locals than the program has nodes.
pub proof fn lemma_locals_bound(s: Stmt, f: Seq<char>)
    ensures
        locals_after(s, f) matches Some(n) ==> n <= weight_stmt(s),
    decreases s, 0nat,
{
    match s {
        Stmt::Block(body, _) => {
            lemma_locals_bound_in(body, body.len() as nat, f);
        },
        Stmt::If(_, body, alter) => {
            lemma_locals_bound(*body, f);
            lemma_locals_bound(*alter, f);
        },
        Stmt::While(_, body) => {
            lemma_locals_bound(*body, f);
        },
        Stmt::FunDecl(_, _, body) => {
            lemma_declared_bound(*body);
        },
        _ => {},
    }
}

proof fn lemma_locals_bound_in(body: Vec<Box<Stmt>>, n: nat, f: Seq<char>)
    requires
        n <= body.len(),
    ensures
        locals_after_in(body, n, f) matches Some(k) ==> k <= weight_stmts(body, n),
    decreases body, n,
{
    if n > 0 {
        lemma_locals_bound_in(body, (n - 1) as nat, f);
        lemma_locals_bound(*body[n - 1], f);
    }
}

/// Instructions that resolve each by itself resolve together.
proof fn lemma_resolved_together(
    insts: Seq<MetaInstView>,
    offsets: Map<Seq<char>, nat>,
    locals: Map<Seq<char>, usize>,
    n: nat,
)
    requires
        n <= insts.len(),
        forall|k: int| 0 <= k < n ==> resolve(#[trigger] insts[k], offsets, locals) is Ok,
    ensures
        resolved(insts, offsets, locals, n) is Ok,
    decreases n,
{
    if n > 0 {
        lemma_resolved_together(insts, offsets, locals, (n - 1) as nat);
        assert(resolve(insts[n - 1], offsets, locals) is Ok);
    }
}

/// Whether a stream item names no label and no function, or ones that the
/// link pass can resolve with the given positions and counts.
pub open spec fn resolvable(
    item: MetaAsmView,
    offsets: Map<Seq<char>, nat>,
    locals: Map<Seq<char>, usize>,
) -> bool {
    match item {
        MetaAsmView::Inst(i) => resolve(i, offsets, locals) is Ok,
        _ => true,
    }
}

/// A sound and orderly program of moderate size that declares `main`, and
/// each function and constructor that it calls, compiles, unless it uses a
/// variable that is not declared where it is used: the generator then
/// names that variable. So the link pass finds every label that the code of
/// such a program names, and the count of locals of every function.
///
/// The size is moderate where twice the number of nodes fits `usize` and
/// twenty times the number, and five, fits `i64`.
pub proof fn lemma_program_links(s: Stmt, md: Seq<EstaStructView>)
    requires
        sound_stmt(s, md),
        orderly(s, true),
        table_fits(md),
        2 * weight_stmt(s) <= usize::MAX,
        20 * weight_stmt(s) + 5 <= i64::MAX,
        declares(s, entry_name()),
        forall|f: Seq<char>| calls_stmt(s, f) ==> declares(s, f),
    ensures
        compiled(s, md) matches Err(err) ==> names_used(err, |id: Seq<char>| uses_stmt(s, id)),
{
    let ctx = AsmCtxView::top_level(md);
    lemma_generator_outcomes(s, md);
    if gen_program(ctx, s) is Ok {
        let after = gen_program(ctx, s)->Ok_0.0;
        let stream = gen_program(ctx, s)->Ok_0.1;
        let body = gen_stmt(ctx, s)->Ok_0.1;
        let insts = insts_of(stream, stream.len());
        let offsets = label_offsets(stream, stream.len());
        let locals = after.locals;
        let holds = |item: MetaAsmView| resolvable(item, offsets, locals);
        lemma_stmt_len(ctx, s);
        lemma_stmt_allocs(ctx, s, true);
        lemma_stmt_refs(ctx, s);
        lemma_declared_marked(ctx, s, entry_name());
        assert(stream =~= prelude() + body + Seq::empty());
        assert forall|i: int| 0 <= i < stream.len() implies holds(#[trigger] stream[i]) by {
            let at = i - prelude().len();
            if at < 0 {
                assert(stream[i] == prelude()[i]);
            } else {
                assert(stream[i] == body[at]);
                assert(ref_item(body[at], settled(body, s)));
                assert(alloc_item(body[at], declared_by(s)));
            }
            match stream[i] {
                MetaAsmView::Inst(m) => match m.var {
                    MetaVarView::Label(l) => {
                        assert(l == entry_name() || settled(body, s)(l));
                        if !marks(body, l) {
                            lemma_declared_marked(ctx, s, l);
                        }
                        lemma_marks_part(stream, prelude(), body, Seq::empty(), l);
                        lemma_marked_offset(stream, stream.len(), l);
                        assert(resolve(m, offsets, locals) is Ok);
                    },
                    MetaVarView::LocalAlloc(f) => {
                        assert(at >= 0);
                        assert(declared_by(s)(f));
                        lemma_locals_after(ctx, s, f);
                        lemma_locals_bound(s, f);
                        assert(resolve(m, offsets, locals) is Ok);
                    },
                    _ => {},
                },
                _ => {},
            }
        }
        lemma_insts_satisfy(stream, stream.len(), holds);
        lemma_resolved_together(insts, offsets, locals, insts.len());
    }
}

/// How many functions and structs named `f` a statement declares.
pub open spec fn times_declared(s: Stmt, f: Seq<char>) -> nat
    decreases s, 0nat,
{
    match s {
        Stmt::Block(body, _) => times_declared_in(body, body.len() as nat, f),
        Stmt::If(_, body, alter) => times_declared(*body, f) + times_declared(*alter, f),
        Stmt::While(_, body) => times_declared(*body, f),
        Stmt::FunDecl(id, _, body) => if id.id@ == f {
            1 + times_declared(*body, f)
        } else {
            times_declared(*body, f)
        },
        Stmt::Struct(id, _) => if id@ == f {
            1
        } else {
            0
        },
        _ => 0,
    }
}

/// `times_declared` for the first `n` statements of a block.
pub open spec fn times_declared_in(body: Vec<Box<Stmt>>, n: nat, f: Seq<char>) -> nat
    decreases body, n,
{
    if n == 0 || n > body.len() {
        0
    } else {
        times_declared_in(body, (n - 1) as nat, f) + times_declared(*body[n - 1], f)
    }
}

/// Whether the statement `part` is the statement `s` or stands in it.
pub open spec fn holds_stmt(s: Stmt, part: Stmt) -> bool
    decreases s, 0nat,
{
    s == part || match s {
        Stmt::Block(body, _) => holds_among(body, body.len() as nat, part),
        Stmt::If(_, body, alter) => holds_stmt(*body, part) || holds_stmt(*alter, part),
        Stmt::While(_, body) => holds_stmt(*body, part),
        Stmt::FunDecl(_, _, body) => holds_stmt(*body, part),
        _ => false,
    }
}

/// Whether `part` is one of the first `n` statements of a block or stands
/// in one of them.
pub open spec fn holds_among(body: Vec<Box<Stmt>>, n: nat, part: Stmt) -> bool
    decreases body, n,
{
    if n == 0 || n > body.len() {
        false
    } else {
        holds_among(body, (n - 1) as nat, part) || holds_stmt(*body[n - 1], part)
    }
}

proof fn lemma_held_counts(s: Stmt, part: Stmt)
    requires
        part is FunDecl,
        holds_stmt(s, part),
    ensures
        times_declared(s, part->FunDecl_0.id@) >= 1,
    decreases s, 0nat,
{
    if s != part {
        match s {
            Stmt::Block(body, _) => {
                lemma_held_counts_in(body, body.len() as nat, part);
            },
            Stmt::If(_, body, alter) => {
                if holds_stmt(*body, part) {
                    lemma_held_counts(*body, part);
                } else {
                    lemma_held_counts(*alter, part);
                }
            },
            Stmt::While(_, body) => {
                lemma_held_counts(*body, part);
            },
            Stmt::FunDecl(_, _, body) => {
                lemma_held_counts(*body, part);
            },
            _ => {},
        }
    }
}

proof fn lemma_held_counts_in(body: Vec<Box<Stmt>>, n: nat, part: Stmt)
    requires
        part is FunDecl,
        n <= body.len(),
        holds_among(body, n, part),
    ensures
        times_declared_in(body, n, part->FunDecl_0.id@) >= 1,
    decreases body, n,
{
    if n > 0 {
        if holds_among(body, (n - 1) as nat, part) {
            lemma_held_counts_in(body, (n - 1) as nat, part);
        } else {
            lemma_held_counts(*body[n - 1], part);
        }
    }
}

proof fn lemma_none_declared(s: Stmt, f: Seq<char>)
    requires
        times_declared(s, f) == 0,
    ensures
        locals_after(s, f) is None,
    decreases s, 0nat,
{
    match s {
        Stmt::Block(body, _) => {
            lemma_none_declared_in(body, body.len() as nat, f);
        },
        Stmt::If(_, body, alter) => {
            lemma_none_declared(*body, f);
            lemma_none_declared(*alter, f);
        },
        Stmt::While(_, body) => {
            lemma_none_declared(*body, f);
        },
        _ => {},
    }
}

proof fn lemma_none_declared_in(body: Vec<Box<Stmt>>, n: nat, f: Seq<char>)
    requires
        n <= body.len(),
        times_declared_in(body, n, f) == 0,
    ensures
        locals_after_in(body, n, f) is None,
    decreases body, n,
{
    if n > 0 {
        lemma_none_declared_in(body, (n - 1) as nat, f);
        lemma_none_declared(*body[n - 1], f);
    }
}

proof fn lemma_flat_holds_none(s: Stmt, part: Stmt)
    requires
        part is FunDecl,
        orderly(s, false),
    ensures
        !holds_stmt(s, part),
    decreases s, 0nat,
{
    match s {
        Stmt::Block(body, _) => {
            lemma_flat_holds_none_in(body, body.len() as nat, part);
        },
        Stmt::If(_, body, alter) => {
            lemma_flat_holds_none(*body, part);
            lemma_flat_holds_none(*alter, part);
        },
        Stmt::While(_, body) => {
            lemma_flat_holds_none(*body, part);
        },
        _ => {},
    }
}

proof fn lemma_flat_holds_none_in(body: Vec<Box<Stmt>>, n: nat, part: Stmt)
    requires
        part is FunDecl,
        n <= body.len(),
        orderly_all(body, n, false),
    ensures
        !holds_among(body, n, part),
    decreases body, n,
{
    if n > 0 {
        lemma_flat_holds_none_in(body, (n - 1) as nat, part);
        lemma_flat_holds_none(*body[n - 1], part);
    }
}

/// Where an orderly program declares one function of a name and nothing
/// else of that name, the count that the name is left with is the number of
/// variable declarations in the body of that function. With
/// `lemma_alloc_operands`: the `ALLOC` of the function reserves exactly one
/// cell for each variable that its body declares.
pub proof fn lemma_sole_declaration(s: Stmt, decl: Stmt)
    requires
        decl is FunDecl,
        orderly(s, true),
        holds_stmt(s, decl),
        times_declared(s, decl->FunDecl_0.id@) == 1,
    ensures
        locals_after(s, decl->FunDecl_0.id@) == Some(declared(*decl->FunDecl_2)),
    decreases s, 0nat,
{
    let f = decl->FunDecl_0.id@;
    if s != decl {
        match s {
            Stmt::Block(body, _) => {
                lemma_sole_declaration_in(body, body.len() as nat, decl);
            },
            Stmt::If(_, body, alter) => {
                if holds_stmt(*alter, decl) {
                    lemma_held_counts(*alter, decl);
                    lemma_sole_declaration(*alter, decl);
                } else {
                    lemma_held_counts(*body, decl);
                    lemma_none_declared(*alter, f);
                    lemma_sole_declaration(*body, decl);
                }
            },
            Stmt::While(_, body) => {
                lemma_sole_declaration(*body, decl);
            },
            Stmt::FunDecl(_, _, body) => {
                lemma_flat_holds_none(*body, decl);
            },
            _ => {},
        }
    }
}

proof fn lemma_sole_declaration_in(body: Vec<Box<Stmt>>, n: nat, decl: Stmt)
    requires
        decl is FunDecl,
        n <= body.len(),
        orderly_all(body, n, true),
        holds_among(body, n, decl),
        times_declared_in(body, n, decl->FunDecl_0.id@) == 1,
    ensures
        locals_after_in(body, n, decl->FunDecl_0.id@) == Some(declared(*decl->FunDecl_2)),
    decreases body, n,
{
    let f = decl->FunDecl_0.id@;
    if n > 0 {
        if holds_stmt(*body[n - 1], decl) {
            lemma_held_counts(*body[n - 1], decl);
            lemma_sole_declaration(*body[n - 1], decl);
        } else {
            lemma_held_counts_in(body, (n - 1) as nat, decl);
            lemma_none_declared(*body[n - 1], f);
            lemma_sole_declaration_in(body, (n - 1) as nat, decl);
        }
    }
}

/// Whether a stream holds, from the index `at` on, the code of the
/// statement `part` as generated in the state `ctx`.
pub open spec fn code_at(stream: Seq<MetaAsmView>, at: int, ctx: AsmCtxView, part: Stmt) -> bool {
    gen_stmt(ctx, part) is Ok && holds_at(stream, at, gen_stmt(ctx, part)->Ok_0.1)
}

/// Whether a stream holds the code of the statement `part` somewhere.
pub open spec fn has_code(stream: Seq<MetaAsmView>, part: Stmt) -> bool {
    exists|at: int, ctx: AsmCtxView| #[trigger] code_at(stream, at, ctx, part)
}

proof fn lemma_code_part(
    code: Seq<MetaAsmView>,
    front: Seq<MetaAsmView>,
    inner: Seq<MetaAsmView>,
    back: Seq<MetaAsmView>,
    part: Stmt,
)
    requires
        code == front + inner + back,
        has_code(inner, part),
    ensures
        has_code(code, part),
{
    let (at, ctx) = choose|at: int, ctx: AsmCtxView| #[trigger] code_at(inner, at, ctx, part);
    let n = gen_stmt(ctx, part)->Ok_0.1.len();
    assert(code.subrange(front.len() + at, front.len() + at + n) =~= inner.subrange(at, at + n));
    assert(code_at(code, front.len() + at, ctx, part));
}

/// The code of a statement holds the code of every statement that stands
/// in it.
pub proof fn lemma_part_emitted(ctx: AsmCtxView, s: Stmt, part: Stmt)
    requires
        holds_stmt(s, part),
        gen_stmt(ctx, s) is Ok,
    ensures
        has_code(gen_stmt(ctx, s)->Ok_0.1, part),
    decreases s, 0nat,
{
    let code = gen_stmt(ctx, s)->Ok_0.1;
    if s == part {
        assert(code.subrange(0, code.len() as int) =~= code);
        assert(code_at(code, 0, ctx, part));
    } else {
        match s {
            Stmt::Block(body, is_scope) => {
                let inner = if is_scope {
                    ctx.push_scope()
                } else {
                    ctx
                };
                lemma_part_emitted_in(inner, body, body.len() as nat, part);
            },
            Stmt::If(test, body, alter) => {
                let inner = ctx.next_label().next_label();
                let t = gen_expr(inner, *test, false)->Ok_0;
                let (c1, b) = gen_stmt(inner, *body)->Ok_0;
                let a = gen_stmt(c1, *alter)->Ok_0.1;
                let jz = seq![asm_label(ByteCode::JUMPZ, ctx.label())];
                let mid = seq![
                    asm_label(ByteCode::JUMP, ctx.next_label().label()),
                    MetaAsmView::Lbl(ctx.label()),
                ];
                let end = seq![MetaAsmView::Lbl(ctx.next_label().label())];
                assert(code == t + jz + b + mid + a + end);
                if holds_stmt(*body, part) {
                    lemma_part_emitted(inner, *body, part);
                    assert(code =~= (t + jz) + b + (mid + a + end));
                    lemma_code_part(code, t + jz, b, mid + a + end, part);
                } else {
                    lemma_part_emitted(c1, *alter, part);
                    assert(code =~= (t + jz + b + mid) + a + end);
                    lemma_code_part(code, t + jz + b + mid, a, end, part);
                }
            },
            Stmt::While(test, body) => {
                let inner = ctx.next_label().next_label();
                let t = gen_expr(inner, *test, false)->Ok_0;
                let b = gen_stmt(inner, *body)->Ok_0.1;
                let head = seq![MetaAsmView::Lbl(ctx.label())];
                let jz = seq![asm_label(ByteCode::JUMPZ, ctx.next_label().label())];
                let end = seq![
                    asm_label(ByteCode::JUMP, ctx.label()),
                    MetaAsmView::Lbl(ctx.next_label().label()),
                ];
                lemma_part_emitted(inner, *body, part);
                assert(code =~= (head + t + jz) + b + end);
                lemma_code_part(code, head + t + jz, b, end, part);
            },
            Stmt::FunDecl(id, params, body) => {
                let start = ctx.add_fun(id.id@, params.len());
                let c0 = gen_params(start, params@, params.len() as nat)->Ok_0;
                let b = gen_stmt(c0, *body)->Ok_0.1;
                let end = code.subrange(code.len() - 1, code.len() as int);
                lemma_part_emitted(c0, *body, part);
                assert(code =~= code.subrange(0, 2) + b + end);
                lemma_code_part(code, code.subrange(0, 2), b, end, part);
            },
            _ => {},
        }
    }
}

proof fn lemma_part_emitted_in(ctx: AsmCtxView, body: Vec<Box<Stmt>>, n: nat, part: Stmt)
    requires
        n <= body.len(),
        holds_among(body, n, part),
        gen_stmts(ctx, body, n) is Ok,
    ensures
        has_code(gen_stmts(ctx, body, n)->Ok_0.1, part),
    decreases body, n,
{
    if n > 0 {
        let code = gen_stmts(ctx, body, n)->Ok_0.1;
        let (c, front) = gen_stmts(ctx, body, (n - 1) as nat)->Ok_0;
        let more = gen_stmt(c, *body[n - 1])->Ok_0.1;
        if holds_among(body, (n - 1) as nat, part) {
            lemma_part_emitted_in(ctx, body, (n - 1) as nat, part);
            assert(code =~= Seq::empty() + front + more);
            lemma_code_part(code, Seq::empty(), front, more, part);
        } else {
            lemma_part_emitted(c, *body[n - 1], part);
            assert(code =~= front + more + Seq::empty());
            lemma_code_part(code, front, more, Seq::empty(), part);
        }
    }
}

/// Whether the stream `stream` holds the code of the function `decl` from
/// the index `at` on, and the linked code `code` holds `ALLOC n` for the
/// `ALLOC` with which the code of the function starts, `n` being the number
/// of variable declarations in the body of the function.
pub open spec fn prologue_at(
    stream: Seq<MetaAsmView>,
    code: Seq<Inst>,
    at: int,
    ctx: AsmCtxView,
    decl: Stmt,
) -> bool {
    let first = insts_of(stream, at as nat).len() as int;
    &&& code_at(stream, at, ctx, decl)
    &&& stream[at] == MetaAsmView::Lbl(decl->FunDecl_0.id@)
    &&& stream[at + 1] == asm_local_alloc(ByteCode::ALLOC, decl->FunDecl_0.id@)
    &&& first < code.len()
    &&& declared(*decl->FunDecl_2) <= i64::MAX
    &&& code[first] == Inst {
        inst: ByteCode::ALLOC,
        data: Some(declared(*decl->FunDecl_2) as i64),
    }
}

/// In the code of an orderly program, a function whose name is declared
/// once starts with an `ALLOC` that reserves exactly as many cells as the
/// body of the function declares variables, at any depth.
pub proof fn lemma_function_alloc(s: Stmt, md: Seq<EstaStructView>, decl: Stmt)
    requires
        decl is FunDecl,
        orderly(s, true),
        holds_stmt(s, decl),
        times_declared(s, decl->FunDecl_0.id@) == 1,
        compiled(s, md) is Ok,
    ensures
        exists|at: int, ctx: AsmCtxView| #[trigger]
            prologue_at(
                gen_program(AsmCtxView::top_level(md), s)->Ok_0.1,
                compiled(s, md)->Ok_0.code,
                at,
                ctx,
                decl,
            ),
{
    let top = AsmCtxView::top_level(md);
    let after = gen_program(top, s)->Ok_0.0;
    let stream = gen_program(top, s)->Ok_0.1;
    let body = gen_stmt(top, s)->Ok_0.1;
    let insts = insts_of(stream, stream.len());
    let offsets = label_offsets(stream, stream.len());
    let code = compiled(s, md)->Ok_0.code;
    let f = decl->FunDecl_0.id@;
    lemma_part_emitted(top, s, decl);
    assert(stream =~= prelude() + body + Seq::empty());
    lemma_code_part(stream, prelude(), body, Seq::empty(), decl);
    let (at, ctx) = choose|at: int, ctx: AsmCtxView| #[trigger] code_at(stream, at, ctx, decl);
    let part = gen_stmt(ctx, decl)->Ok_0.1;
    assert(stream.subrange(at, at + part.len())[0] == part[0]);
    assert(stream.subrange(at, at + part.len())[1] == part[1]);
    let first = insts_of(stream, at as nat).len() as int;
    assert(insts_of(stream, (at + 1) as nat) == insts_of(stream, at as nat));
    assert(insts_of(stream, (at + 2) as nat)[first] == MetaInstView {
        inst: ByteCode::ALLOC,
        var: MetaVarView::LocalAlloc(f),
    });
    lemma_insts_prefix(stream, (at + 2) as nat, stream.len());
    lemma_resolved_items(insts, offsets, after.locals, insts.len());
    assert(resolve(insts[first], offsets, after.locals) == Ok::<Inst, CompileErrorView>(
        code[first],
    ));
    lemma_held_orderly(s, decl);
    lemma_sole_declaration(s, decl);
    lemma_locals_after(top, s, f);
    assert(prologue_at(stream, code, at, ctx, decl));
}

/// A function that stands in an orderly program is not named like the top
/// level, and its body declares no function.
proof fn lemma_held_orderly(s: Stmt, decl: Stmt)
    requires
        decl is FunDecl,
        orderly(s, true),
        holds_stmt(s, decl),
    ensures
        decl->FunDecl_0.id@ != global_name(),
        orderly(*decl->FunDecl_2, false),
    decreases s, 0nat,
{
    if s != decl {
        match s {
            Stmt::Block(body, _) => {
                lemma_held_orderly_in(body, body.len() as nat, decl);
            },
            Stmt::If(_, body, alter) => {
                if holds_stmt(*body, decl) {
                    lemma_held_orderly(*body, decl);
                } else {
                    lemma_held_orderly(*alter, decl);
                }
            },
            Stmt::While(_, body) => {
                lemma_held_orderly(*body, decl);
            },
            Stmt::FunDecl(_, _, body) => {
                lemma_flat_holds_none(*body, decl);
            },
            _ => {},
        }
    }
}

proof fn lemma_held_orderly_in(body: Vec<Box<Stmt>>, n: nat, decl: Stmt)
    requires
        decl is FunDecl,
        n <= body.len(),
        orderly_all(body, n, true),
        holds_among(body, n, decl),
    ensures
        decl->FunDecl_0.id@ != global_name(),
        orderly(*decl->FunDecl_2, false),
    decreases body, n,
{
    if n > 0 {
        if holds_among(body, (n - 1) as nat, decl) {
            lemma_held_orderly_in(body, (n - 1) as nat, decl);
        } else {
            lemma_held_orderly(*body[n - 1], decl);
        }
    }
}

} // verus!
