//! Where the labels of a stream are set and where they are used: the code
//! of a statement sets each label that its jumps name, and names no other
//! label but the functions that the statement calls.
use vstd::prelude::*;
use crate::backend::assembly_context::AsmCtxView;
use crate::backend::codegen::{gen_args, gen_expr, gen_params, gen_stmt, gen_stmts};
use crate::backend::guarantees::{declares, declares_in};
use crate::backend::program::{insts_of, label_offsets};
use crate::frontend::ast::{Expr, Stmt};
use crate::vm::bytecode::{asm_data, asm_inst, asm_label, ByteCode, MetaAsmView, MetaVarView};

verus! {

/// Whether an expression calls a function or a constructor named `f`.
pub open spec fn calls_expr(e: Expr, f: Seq<char>) -> bool
    decreases e, 0nat,
{
    match e {
        Expr::BinaryOp(lhs, _, rhs) => calls_expr(*lhs, f) || calls_expr(*rhs, f),
        Expr::UnaryOp(_, rhs) => calls_expr(*rhs, f),
        Expr::FunCall(id, args) => id@ == f || calls_args(args, args.len() as nat, f),
        _ => false,
    }
}

/// Whether one of the last `n` arguments of a call calls `f`.
pub open spec fn calls_args(args: Vec<Expr>, n: nat, f: Seq<char>) -> bool
    decreases args, n,
{
    if n == 0 || n > args.len() {
        false
    } else {
        calls_args(args, (n - 1) as nat, f) || calls_expr(args[args.len() - n], f)
    }
}

/// Whether a statement calls a function or a constructor named `f`.
pub open spec fn calls_stmt(s: Stmt, f: Seq<char>) -> bool
    decreases s, 0nat,
{
    match s {
        Stmt::Block(body, _) => calls_stmts(body, body.len() as nat, f),
        Stmt::If(test, body, alter) => calls_expr(*test, f) || calls_stmt(*body, f) || calls_stmt(
            *alter,
            f,
        ),
        Stmt::While(test, body) => calls_expr(*test, f) || calls_stmt(*body, f),
        Stmt::Return(Some(value)) => calls_expr(*value, f),
        Stmt::FunDecl(_, _, body) => calls_stmt(*body, f),
        Stmt::Assignment(lhs, rhs) => calls_expr(*lhs, f) || calls_expr(*rhs, f),
        _ => false,
    }
}

/// Whether one of the first `n` statements of a block calls `f`.
pub open spec fn calls_stmts(body: Vec<Box<Stmt>>, n: nat, f: Seq<char>) -> bool
    decreases body, n,
{
    if n == 0 || n > body.len() {
        false
    } else {
        calls_stmts(body, (n - 1) as nat, f) || calls_stmt(*body[n - 1], f)
    }
}

/// Whether a stream sets the label `l`.
pub open spec fn marks(stream: Seq<MetaAsmView>, l: Seq<char>) -> bool {
    exists|i: int| 0 <= i < stream.len() && #[trigger] stream[i] == MetaAsmView::Lbl(l)
}

/// Whether a stream item names no label, or one that `known` holds.
pub open spec fn ref_item(item: MetaAsmView, known: spec_fn(Seq<char>) -> bool) -> bool {
    match item {
        MetaAsmView::Inst(i) => match i.var {
            MetaVarView::Label(l) => known(l),
            _ => true,
        },
        _ => true,
    }
}

/// Whether `ref_item` holds of every item of a stream.
pub open spec fn refs_known(stream: Seq<MetaAsmView>, known: spec_fn(Seq<char>) -> bool) -> bool {
    forall|i: int| 0 <= i < stream.len() ==> ref_item(#[trigger] stream[i], known)
}

/// The names that an expression calls, as a predicate.
pub open spec fn called_in(e: Expr) -> spec_fn(Seq<char>) -> bool {
    |f: Seq<char>| calls_expr(e, f)
}

/// The names that the last `n` arguments of a call call, as a predicate.
pub open spec fn called_among(args: Vec<Expr>, n: nat) -> spec_fn(Seq<char>) -> bool {
    |f: Seq<char>| calls_args(args, n, f)
}

/// The labels that `code` sets and the names that `s` calls, as a
/// predicate.
pub open spec fn settled(code: Seq<MetaAsmView>, s: Stmt) -> spec_fn(Seq<char>) -> bool {
    |l: Seq<char>| marks(code, l) || calls_stmt(s, l)
}

/// `settled` for the first `n` statements of a block.
pub open spec fn settled_among(code: Seq<MetaAsmView>, body: Vec<Box<Stmt>>, n: nat) -> spec_fn(
    Seq<char>,
) -> bool {
    |l: Seq<char>| marks(code, l) || calls_stmts(body, n, l)
}

proof fn lemma_refs_widen(
    code: Seq<MetaAsmView>,
    fewer: spec_fn(Seq<char>) -> bool,
    more: spec_fn(Seq<char>) -> bool,
)
    requires
        refs_known(code, fewer),
        forall|f: Seq<char>| #[trigger] fewer(f) ==> more(f),
    ensures
        refs_known(code, more),
{
    assert forall|i: int| 0 <= i < code.len() implies ref_item(#[trigger] code[i], more) by {
        assert(ref_item(code[i], fewer));
    }
}

proof fn lemma_refs_join(
    front: Seq<MetaAsmView>,
    back: Seq<MetaAsmView>,
    known: spec_fn(Seq<char>) -> bool,
)
    requires
        refs_known(front, known),
        refs_known(back, known),
    ensures
        refs_known(front + back, known),
{
    assert forall|i: int| 0 <= i < (front + back).len() implies ref_item(
        #[trigger] (front + back)[i],
        known,
    ) by {
        if i < front.len() {
            assert(ref_item(front[i], known));
        } else {
            assert(ref_item(back[i - front.len()], known));
        }
    }
}

/// A label that a part of a stream sets is set by the stream.
pub proof fn lemma_marks_part(
    code: Seq<MetaAsmView>,
    front: Seq<MetaAsmView>,
    part: Seq<MetaAsmView>,
    back: Seq<MetaAsmView>,
    l: Seq<char>,
)
    requires
        code == front + part + back,
        marks(part, l),
    ensures
        marks(code, l),
{
    let i = choose|i: int| 0 <= i < part.len() && #[trigger] part[i] == MetaAsmView::Lbl(l);
    assert(code[front.len() + i] == MetaAsmView::Lbl(l));
}

/// The code of an expression names no label but the functions that the
/// expression calls.
pub proof fn lemma_expr_refs(ctx: AsmCtxView, e: Expr, l_value: bool)
    ensures
        gen_expr(ctx, e, l_value) matches Ok(code) ==> refs_known(code, called_in(e)),
    decreases e, 0nat,
{
    let known = called_in(e);
    if gen_expr(ctx, e, l_value) is Ok {
        match e {
            Expr::BinaryOp(lhs, _, rhs) => {
                lemma_expr_refs(ctx, *lhs, false);
                lemma_expr_refs(ctx, *rhs, false);
                lemma_refs_widen(gen_expr(ctx, *lhs, false)->Ok_0, called_in(*lhs), known);
                lemma_refs_widen(gen_expr(ctx, *rhs, false)->Ok_0, called_in(*rhs), known);
            },
            Expr::UnaryOp(_, rhs) => {
                lemma_expr_refs(ctx, *rhs, false);
                lemma_refs_widen(gen_expr(ctx, *rhs, false)->Ok_0, called_in(*rhs), known);
            },
            Expr::FunCall(id, args) => {
                let n = args.len() as nat;
                lemma_args_refs(ctx, args, n);
                lemma_refs_widen(gen_args(ctx, args, n)->Ok_0, called_among(args, n), known);
                assert(known(id@));
            },
            _ => {},
        }
    }
}

proof fn lemma_args_refs(ctx: AsmCtxView, args: Vec<Expr>, n: nat)
    requires
        n <= args.len(),
    ensures
        gen_args(ctx, args, n) matches Ok(code) ==> refs_known(code, called_among(args, n)),
    decreases args, n,
{
    if n > 0 && gen_args(ctx, args, n) is Ok {
        let known = called_among(args, n);
        let front = gen_args(ctx, args, (n - 1) as nat)->Ok_0;
        let more = gen_expr(ctx, args[args.len() - n], false)->Ok_0;
        lemma_args_refs(ctx, args, (n - 1) as nat);
        lemma_expr_refs(ctx, args[args.len() - n], false);
        lemma_refs_widen(front, called_among(args, (n - 1) as nat), known);
        lemma_refs_widen(more, called_in(args[args.len() - n]), known);
        lemma_refs_join(front, more, known);
    }
}

/// The code of an expression, as a part of the code of a statement that
/// holds the expression.
proof fn lemma_expr_part(ctx: AsmCtxView, e: Expr, l_value: bool, code: Seq<MetaAsmView>, s: Stmt)
    requires
        gen_expr(ctx, e, l_value) is Ok,
        forall|f: Seq<char>| calls_expr(e, f) ==> calls_stmt(s, f),
    ensures
        refs_known(gen_expr(ctx, e, l_value)->Ok_0, settled(code, s)),
{
    lemma_expr_refs(ctx, e, l_value);
    lemma_refs_widen(gen_expr(ctx, e, l_value)->Ok_0, called_in(e), settled(code, s));
}

/// The code of a statement, as a part of the code of a statement that
/// holds it.
proof fn lemma_stmt_part(
    code: Seq<MetaAsmView>,
    s: Stmt,
    front: Seq<MetaAsmView>,
    part: Seq<MetaAsmView>,
    back: Seq<MetaAsmView>,
    inner: Stmt,
)
    requires
        code == front + part + back,
        refs_known(part, settled(part, inner)),
        forall|f: Seq<char>| calls_stmt(inner, f) ==> calls_stmt(s, f),
    ensures
        refs_known(part, settled(code, s)),
{
    assert forall|l: Seq<char>| #[trigger] settled(part, inner)(l) implies settled(code, s)(l) by {
        if marks(part, l) {
            lemma_marks_part(code, front, part, back, l);
        }
    }
    lemma_refs_widen(part, settled(part, inner), settled(code, s));
}

proof fn lemma_if_refs(ctx: AsmCtxView, s: Stmt)
    requires
        s is If,
        gen_stmt(ctx, s) is Ok,
        ({
            let inner = ctx.next_label().next_label();
            let (c1, b) = gen_stmt(inner, *s->If_1)->Ok_0;
            let a = gen_stmt(c1, *s->If_2)->Ok_0.1;
            &&& refs_known(b, settled(b, *s->If_1))
            &&& refs_known(a, settled(a, *s->If_2))
        }),
    ensures
        refs_known(gen_stmt(ctx, s)->Ok_0.1, settled(gen_stmt(ctx, s)->Ok_0.1, s)),
{
    let code = gen_stmt(ctx, s)->Ok_0.1;
    let known = settled(code, s);
    let inner = ctx.next_label().next_label();
    let t = gen_expr(inner, *s->If_0, false)->Ok_0;
    let (c1, b) = gen_stmt(inner, *s->If_1)->Ok_0;
    let a = gen_stmt(c1, *s->If_2)->Ok_0.1;
    let jz = seq![asm_label(ByteCode::JUMPZ, ctx.label())];
    let mid = seq![
        asm_label(ByteCode::JUMP, ctx.next_label().label()),
        MetaAsmView::Lbl(ctx.label()),
    ];
    let end = seq![MetaAsmView::Lbl(ctx.next_label().label())];
    assert(code == t + jz + b + mid + a + end);
    lemma_expr_part(inner, *s->If_0, false, code, s);
    assert(code =~= (t + jz) + b + (mid + a + end));
    lemma_stmt_part(code, s, t + jz, b, mid + a + end, *s->If_1);
    assert(code =~= (t + jz + b + mid) + a + end);
    lemma_stmt_part(code, s, t + jz + b + mid, a, end, *s->If_2);
    assert(code[(t.len() + 1 + b.len() + 1) as int] == MetaAsmView::Lbl(ctx.label()));
    assert(code[code.len() - 1] == MetaAsmView::Lbl(ctx.next_label().label()));
    assert(refs_known(jz, known));
    assert(refs_known(mid, known));
    assert(refs_known(end, known));
    lemma_refs_join(t, jz, known);
    lemma_refs_join(t + jz, b, known);
    lemma_refs_join(t + jz + b, mid, known);
    lemma_refs_join(t + jz + b + mid, a, known);
    lemma_refs_join(t + jz + b + mid + a, end, known);
}

proof fn lemma_while_refs(ctx: AsmCtxView, s: Stmt)
    requires
        s is While,
        gen_stmt(ctx, s) is Ok,
        ({
            let b = gen_stmt(ctx.next_label().next_label(), *s->While_1)->Ok_0.1;
            refs_known(b, settled(b, *s->While_1))
        }),
    ensures
        refs_known(gen_stmt(ctx, s)->Ok_0.1, settled(gen_stmt(ctx, s)->Ok_0.1, s)),
{
    let code = gen_stmt(ctx, s)->Ok_0.1;
    let known = settled(code, s);
    let inner = ctx.next_label().next_label();
    let t = gen_expr(inner, *s->While_0, false)->Ok_0;
    let b = gen_stmt(inner, *s->While_1)->Ok_0.1;
    let head = seq![MetaAsmView::Lbl(ctx.label())];
    let jz = seq![asm_label(ByteCode::JUMPZ, ctx.next_label().label())];
    let end = seq![
        asm_label(ByteCode::JUMP, ctx.label()),
        MetaAsmView::Lbl(ctx.next_label().label()),
    ];
    assert(code == head + t + jz + b + end);
    lemma_expr_part(inner, *s->While_0, false, code, s);
    assert(code =~= (head + t + jz) + b + end);
    lemma_stmt_part(code, s, head + t + jz, b, end, *s->While_1);
    assert(code[0] == MetaAsmView::Lbl(ctx.label()));
    assert(code[code.len() - 1] == MetaAsmView::Lbl(ctx.next_label().label()));
    assert(refs_known(head, known));
    assert(refs_known(jz, known));
    assert(refs_known(end, known));
    lemma_refs_join(head, t, known);
    lemma_refs_join(head + t, jz, known);
    lemma_refs_join(head + t + jz, b, known);
    lemma_refs_join(head + t + jz + b, end, known);
}

proof fn lemma_fun_refs(ctx: AsmCtxView, s: Stmt)
    requires
        s is FunDecl,
        gen_stmt(ctx, s) is Ok,
        ({
            let start = ctx.add_fun(s->FunDecl_0.id@, s->FunDecl_1.len());
            let c0 = gen_params(start, s->FunDecl_1@, s->FunDecl_1.len() as nat)->Ok_0;
            let b = gen_stmt(c0, *s->FunDecl_2)->Ok_0.1;
            refs_known(b, settled(b, *s->FunDecl_2))
        }),
    ensures
        refs_known(gen_stmt(ctx, s)->Ok_0.1, settled(gen_stmt(ctx, s)->Ok_0.1, s)),
{
    let code = gen_stmt(ctx, s)->Ok_0.1;
    let known = settled(code, s);
    let start = ctx.add_fun(s->FunDecl_0.id@, s->FunDecl_1.len());
    let c0 = gen_params(start, s->FunDecl_1@, s->FunDecl_1.len() as nat)->Ok_0;
    let b = gen_stmt(c0, *s->FunDecl_2)->Ok_0.1;
    let head = code.subrange(0, 2);
    let end = seq![asm_data(ByteCode::RET, 2)];
    assert(code =~= head + b + end);
    lemma_stmt_part(code, s, head, b, end, *s->FunDecl_2);
    assert(refs_known(head, known));
    assert(refs_known(end, known));
    lemma_refs_join(head, b, known);
    lemma_refs_join(head + b, end, known);
}

/// Every label that the code of a statement names is set in that code or
/// is the name of a function that the statement calls.
pub proof fn lemma_stmt_refs(ctx: AsmCtxView, s: Stmt)
    ensures
        gen_stmt(ctx, s) matches Ok((_, code)) ==> refs_known(code, settled(code, s)),
    decreases s, 0nat,
{
    if gen_stmt(ctx, s) is Ok {
        let code = gen_stmt(ctx, s)->Ok_0.1;
        let known = settled(code, s);
        match s {
            Stmt::Block(body, is_scope) => {
                let inner = if is_scope {
                    ctx.push_scope()
                } else {
                    ctx
                };
                let n = body.len() as nat;
                lemma_stmts_refs(inner, body, n);
                lemma_refs_widen(code, settled_among(code, body, n), known);
            },
            Stmt::If(_, body, alter) => {
                let inner = ctx.next_label().next_label();
                lemma_stmt_refs(inner, *body);
                lemma_stmt_refs(gen_stmt(inner, *body)->Ok_0.0, *alter);
                lemma_if_refs(ctx, s);
            },
            Stmt::While(_, body) => {
                lemma_stmt_refs(ctx.next_label().next_label(), *body);
                lemma_while_refs(ctx, s);
            },
            Stmt::Return(Some(value)) => {
                lemma_expr_part(ctx, *value, false, code, s);
            },
            Stmt::FunDecl(id, params, body) => {
                let start = ctx.add_fun(id.id@, params.len());
                lemma_stmt_refs(gen_params(start, params@, params.len() as nat)->Ok_0, *body);
                lemma_fun_refs(ctx, s);
            },
            Stmt::Assignment(lhs, rhs) => {
                lemma_expr_part(ctx, *rhs, false, code, s);
                lemma_expr_part(ctx, *lhs, true, code, s);
            },
            _ => {},
        }
    }
}

proof fn lemma_stmts_refs(ctx: AsmCtxView, body: Vec<Box<Stmt>>, n: nat)
    requires
        n <= body.len(),
    ensures
        gen_stmts(ctx, body, n) matches Ok((_, code)) ==> refs_known(
            code,
            settled_among(code, body, n),
        ),
    decreases body, n,
{
    if n > 0 && gen_stmts(ctx, body, n) is Ok {
        let code = gen_stmts(ctx, body, n)->Ok_0.1;
        let known = settled_among(code, body, n);
        let (c, front) = gen_stmts(ctx, body, (n - 1) as nat)->Ok_0;
        let more = gen_stmt(c, *body[n - 1])->Ok_0.1;
        lemma_stmts_refs(ctx, body, (n - 1) as nat);
        lemma_stmt_refs(c, *body[n - 1]);
        assert forall|l: Seq<char>| #[trigger]
            settled_among(front, body, (n - 1) as nat)(l) implies known(l) by {
            if marks(front, l) {
                assert(code =~= Seq::empty() + front + more);
                lemma_marks_part(code, Seq::empty(), front, more, l);
            }
        }
        assert forall|l: Seq<char>| #[trigger] settled(more, *body[n - 1])(l) implies known(l) by {
            if marks(more, l) {
                assert(code =~= front + more + Seq::empty());
                lemma_marks_part(code, front, more, Seq::empty(), l);
            }
        }
        lemma_refs_widen(front, settled_among(front, body, (n - 1) as nat), known);
        lemma_refs_widen(more, settled(more, *body[n - 1]), known);
        lemma_refs_join(front, more, known);
    }
}

/// The code of a statement sets the name of each function and each struct
/// that the statement declares.
pub proof fn lemma_declared_marked(ctx: AsmCtxView, s: Stmt, f: Seq<char>)
    requires
        declares(s, f),
        gen_stmt(ctx, s) is Ok,
    ensures
        marks(gen_stmt(ctx, s)->Ok_0.1, f),
    decreases s, 0nat,
{
    let code = gen_stmt(ctx, s)->Ok_0.1;
    match s {
        Stmt::Block(body, is_scope) => {
            let inner = if is_scope {
                ctx.push_scope()
            } else {
                ctx
            };
            lemma_declared_marked_in(inner, body, body.len() as nat, f);
        },
        Stmt::If(test, body, alter) => {
            let inner = ctx.next_label().next_label();
            let t = gen_expr(inner, *test, false)->Ok_0;
            let (c1, b) = gen_stmt(inner, *body)->Ok_0;
            let a = gen_stmt(c1, *alter)->Ok_0.1;
            let jz = seq![asm_label(ByteCode::JUMPZ, ctx.label())];
            let mid = seq![
                asm_label(ByteCode::JUMP, ctx.next_label().label()),
                MetaAsmView::Lbl(ctx.label()),
            ];
            let end = seq![MetaAsmView::Lbl(ctx.next_label().label())];
            assert(code == t + jz + b + mid + a + end);
            if declares(*body, f) {
                lemma_declared_marked(inner, *body, f);
                assert(code =~= (t + jz) + b + (mid + a + end));
                lemma_marks_part(code, t + jz, b, mid + a + end, f);
            } else {
                lemma_declared_marked(c1, *alter, f);
                assert(code =~= (t + jz + b + mid) + a + end);
                lemma_marks_part(code, t + jz + b + mid, a, end, f);
            }
        },
        Stmt::While(test, body) => {
            let inner = ctx.next_label().next_label();
            let t = gen_expr(inner, *test, false)->Ok_0;
            let b = gen_stmt(inner, *body)->Ok_0.1;
            let head = seq![MetaAsmView::Lbl(ctx.label())];
            let jz = seq![asm_label(ByteCode::JUMPZ, ctx.next_label().label())];
            let end = seq![
                asm_label(ByteCode::JUMP, ctx.label()),
                MetaAsmView::Lbl(ctx.next_label().label()),
            ];
            lemma_declared_marked(inner, *body, f);
            assert(code =~= (head + t + jz) + b + end);
            lemma_marks_part(code, head + t + jz, b, end, f);
        },
        Stmt::FunDecl(id, params, body) => {
            if id.id@ == f {
                assert(code[0] == MetaAsmView::Lbl(f));
            } else {
                let start = ctx.add_fun(id.id@, params.len());
                let c0 = gen_params(start, params@, params.len() as nat)->Ok_0;
                let b = gen_stmt(c0, *body)->Ok_0.1;
                lemma_declared_marked(c0, *body, f);
                assert(code =~= code.subrange(0, 2) + b + seq![asm_data(ByteCode::RET, 2)]);
                lemma_marks_part(code, code.subrange(0, 2), b, seq![asm_data(ByteCode::RET, 2)], f);
            }
        },
        Stmt::Struct(id, _) => {
            assert(code[0] == MetaAsmView::Lbl(f));
        },
        _ => {},
    }
}

proof fn lemma_declared_marked_in(ctx: AsmCtxView, body: Vec<Box<Stmt>>, n: nat, f: Seq<char>)
    requires
        n <= body.len(),
        declares_in(body, n, f),
        gen_stmts(ctx, body, n) is Ok,
    ensures
        marks(gen_stmts(ctx, body, n)->Ok_0.1, f),
    decreases body, n,
{
    if n > 0 {
        let code = gen_stmts(ctx, body, n)->Ok_0.1;
        let (c, front) = gen_stmts(ctx, body, (n - 1) as nat)->Ok_0;
        let more = gen_stmt(c, *body[n - 1])->Ok_0.1;
        if declares_in(body, (n - 1) as nat, f) {
            lemma_declared_marked_in(ctx, body, (n - 1) as nat, f);
            assert(code =~= Seq::empty() + front + more);
            lemma_marks_part(code, Seq::empty(), front, more, f);
        } else {
            lemma_declared_marked(c, *body[n - 1], f);
            assert(code =~= front + more + Seq::empty());
            lemma_marks_part(code, front, more, Seq::empty(), f);
        }
    }
}

/// The link pass knows the position of each label that the stream sets.
pub proof fn lemma_marked_offset(stream: Seq<MetaAsmView>, n: nat, l: Seq<char>)
    requires
        n <= stream.len(),
        exists|i: int| 0 <= i < n && #[trigger] stream[i] == MetaAsmView::Lbl(l),
    ensures
        label_offsets(stream, n).contains_key(l),
        label_offsets(stream, n)[l] <= insts_of(stream, n).len() <= n,
    decreases n,
{
    lemma_insts_within(stream, n);
    if stream[n - 1] == MetaAsmView::Lbl(l) {
        lemma_insts_within(stream, (n - 1) as nat);
    } else {
        let i = choose|i: int| 0 <= i < n && #[trigger] stream[i] == MetaAsmView::Lbl(l);
        assert(i < n - 1);
        lemma_marked_offset(stream, (n - 1) as nat, l);
    }
}

/// A stream holds no more instructions than items.
pub proof fn lemma_insts_within(stream: Seq<MetaAsmView>, n: nat)
    requires
        n <= stream.len(),
    ensures
        insts_of(stream, n).len() <= n,
    decreases n,
{
    if n > 0 {
        lemma_insts_within(stream, (n - 1) as nat);
    }
}

} // verus!
