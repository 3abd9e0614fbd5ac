//! The generator and the limits of the machine's integers: a program of
//! moderate size never meets them.
use vstd::prelude::*;
use crate::backend::allocation::AllocView;
use crate::backend::assembly_context::{first_named, global_name, AsmCtxView};
use crate::backend::codegen::{gen_args, gen_expr, gen_params, gen_program, gen_stmt, gen_stmts};
use crate::backend::guarantees::{
    placed_args, placed_expr, sound_stmt, sound_stmts, uses_args, uses_expr, uses_stmt,
    uses_stmts,
};
use crate::error::CompileErrorView;
use crate::frontend::ast::{EstaStructView, Expr, Identifier, Stmt};

verus! {

/// The size of an expression: the number of its nodes, each argument of a
/// call counted once more.
pub open spec fn weight_expr(e: Expr) -> nat
    decreases e, 0nat,
{
    match e {
        Expr::BinaryOp(lhs, _, rhs) => 1 + weight_expr(*lhs) + weight_expr(*rhs),
        Expr::UnaryOp(_, rhs) => 1 + weight_expr(*rhs),
        Expr::FunCall(_, args) => 1 + weight_args(args, args.len() as nat),
        _ => 1,
    }
}

/// The size of the last `n` arguments of a call.
pub open spec fn weight_args(args: Vec<Expr>, n: nat) -> nat
    decreases args, n,
{
    if n == 0 || n > args.len() {
        0
    } else {
        weight_args(args, (n - 1) as nat) + 1 + weight_expr(args[args.len() - n])
    }
}

/// The size of a statement: the number of its nodes, each parameter of a
/// function counted as two.
pub open spec fn weight_stmt(s: Stmt) -> nat
    decreases s, 0nat,
{
    match s {
        Stmt::Block(body, _) => 1 + weight_stmts(body, body.len() as nat),
        Stmt::If(test, body, alter) => 1 + weight_expr(*test) + weight_stmt(*body) + weight_stmt(
            *alter,
        ),
        Stmt::While(test, body) => 1 + weight_expr(*test) + weight_stmt(*body),
        Stmt::Return(Some(value)) => 1 + weight_expr(*value),
        Stmt::FunDecl(_, params, body) => 1 + 2 * params.len() as nat + weight_stmt(*body),
        Stmt::Assignment(lhs, rhs) => 1 + weight_expr(*lhs) + weight_expr(*rhs),
        _ => 1,
    }
}

/// The size of the first `n` statements of a block.
pub open spec fn weight_stmts(body: Vec<Box<Stmt>>, n: nat) -> nat
    decreases body, n,
{
    if n == 0 || n > body.len() {
        0
    } else {
        weight_stmts(body, (n - 1) as nat) + weight_stmt(*body[n - 1])
    }
}

/// Whether a scope level has room for `n` more locals and `n` more
/// parameters.
pub open spec fn level_has_room(level: AllocView, n: nat) -> bool {
    level.top + n <= i64::MAX && level.bot - n >= i64::MIN && level.top >= 0
}

/// Whether the counters of a state have room for a program of size `n`:
/// two labels, one local and one parameter for each node.
pub open spec fn has_room(ctx: AsmCtxView, n: nat) -> bool {
    &&& ctx.suffix + 2 * n <= usize::MAX
    &&& ctx.args + n + 3 <= i64::MAX
    &&& forall|f: Seq<char>| #[trigger]
        ctx.locals.contains_key(f) ==> ctx.locals[f] + n <= usize::MAX
    &&& forall|f: Seq<char>, i: int|
        ctx.scopes.contains_key(f) && 0 <= i < ctx.scopes[f].len() ==> level_has_room(
            #[trigger] ctx.scopes[f][i],
            n,
        )
}

/// Whether functions and structs are declared at the top level alone, and
/// none of them is named like the top level. `top` says whether the
/// statement itself stands at the top level. In such a program a scope level
/// is closed in the function in which it was opened.
pub open spec fn orderly(s: Stmt, top: bool) -> bool
    decreases s, 0nat,
{
    match s {
        Stmt::Block(body, _) => orderly_all(body, body.len() as nat, top),
        Stmt::If(_, body, alter) => orderly(*body, top) && orderly(*alter, top),
        Stmt::While(_, body) => orderly(*body, top),
        Stmt::FunDecl(id, _, body) => top && id.id@ != global_name() && orderly(*body, false),
        Stmt::Struct(id, _) => top && id@ != global_name(),
        _ => true,
    }
}

/// `orderly` of the first `n` statements of a block.
pub open spec fn orderly_all(body: Vec<Box<Stmt>>, n: nat, top: bool) -> bool
    decreases body, n,
{
    if n == 0 || n > body.len() {
        true
    } else {
        orderly_all(body, (n - 1) as nat, top) && orderly(*body[n - 1], top)
    }
}

/// Whether the function being emitted and the top level both have a frame
/// with a scope level open.
pub open spec fn steady(ctx: AsmCtxView) -> bool {
    ctx.wf() && ctx.has_level() && ctx.scopes[global_name()].len() > 0
}

/// Whether `after` is at the same function, with as many scope levels open
/// in it and at the top level, and with the same struct table, as `before`.
pub open spec fn same_depth(before: AsmCtxView, after: AsmCtxView) -> bool {
    &&& after.base == before.base
    &&& after.md == before.md
    &&& after.scopes[after.base].len() == before.scopes[before.base].len()
    &&& after.scopes[global_name()].len() == before.scopes[global_name()].len()
}

/// Whether the sizes and tags of the structs of a table fit the operand of
/// an instruction.
pub open spec fn table_fits(md: Seq<EstaStructView>) -> bool {
    forall|i: int|
        0 <= i < md.len() ==> (#[trigger] md[i]).size <= i64::MAX && md[i].tag <= i64::MAX
}

/// A struct found in a table that fits, fits.
proof fn lemma_found_fits(md: Seq<EstaStructView>, id: Seq<char>)
    requires
        table_fits(md),
        first_named(md, id) is Some,
    ensures
        first_named(md, id)->Some_0.size <= i64::MAX,
        first_named(md, id)->Some_0.tag <= i64::MAX,
    decreases md.len(),
{
    if md[0].id != id {
        let rest = md.drop_first();
        assert forall|i: int| 0 <= i < rest.len() implies (#[trigger] rest[i]).size <= i64::MAX
            && rest[i].tag <= i64::MAX by {
            assert(rest[i] == md[i + 1]);
        }
        lemma_found_fits(rest, id);
    }
}

/// A call has at most as many arguments as its size.
proof fn lemma_args_counted(args: Vec<Expr>, n: nat)
    requires
        n <= args.len(),
    ensures
        n <= weight_args(args, n),
    decreases n,
{
    if n > 0 {
        lemma_args_counted(args, (n - 1) as nat);
    }
}

/// Whether an error names a variable that is used.
pub open spec fn names_used(e: CompileErrorView, used: spec_fn(Seq<char>) -> bool) -> bool {
    e matches CompileErrorView::UnknownIdentifier(id) && used(id)
}

/// The generator answers an expression of moderate size, with well-placed
/// operators, with its code or with the name of a variable that the
/// expression uses and that is not declared.
pub proof fn lemma_expr_within_limits(ctx: AsmCtxView, e: Expr, l_value: bool)
    requires
        placed_expr(e),
        weight_expr(e) <= i64::MAX,
    ensures
        gen_expr(ctx, e, l_value) matches Err(err) ==> names_used(
            err,
            |id: Seq<char>| uses_expr(e, id),
        ),
    decreases e, 0nat,
{
    match e {
        Expr::BinaryOp(lhs, _, rhs) => {
            lemma_expr_within_limits(ctx, *lhs, false);
            lemma_expr_within_limits(ctx, *rhs, false);
        },
        Expr::UnaryOp(_, rhs) => {
            lemma_expr_within_limits(ctx, *rhs, false);
        },
        Expr::FunCall(_, args) => {
            lemma_args_counted(args, args.len() as nat);
            lemma_args_within_limits(ctx, args, args.len() as nat);
        },
        _ => {},
    }
}

proof fn lemma_args_within_limits(ctx: AsmCtxView, args: Vec<Expr>, n: nat)
    requires
        placed_args(args, n),
        n <= args.len(),
        weight_args(args, n) <= i64::MAX,
    ensures
        gen_args(ctx, args, n) matches Err(err) ==> names_used(
            err,
            |id: Seq<char>| uses_args(args, n, id),
        ),
    decreases args, n,
{
    if n > 0 {
        lemma_args_within_limits(ctx, args, (n - 1) as nat);
        lemma_expr_within_limits(ctx, args[args.len() - n], false);
    }
}

/// Room for more is room for less.
proof fn lemma_room_shrinks(ctx: AsmCtxView, n: nat, m: nat)
    requires
        has_room(ctx, n),
        m <= n,
    ensures
        has_room(ctx, m),
{
    assert forall|f: Seq<char>, i: int|
        ctx.scopes.contains_key(f) && 0 <= i < ctx.scopes[f].len() implies level_has_room(
        #[trigger] ctx.scopes[f][i],
        m,
    ) by {
        assert(level_has_room(ctx.scopes[f][i], n));
    }
}

proof fn lemma_params_within_limits(ctx: AsmCtxView, params: Seq<Identifier>, n: nat, extra: nat)
    requires
        steady(ctx),
        n <= params.len(),
        has_room(ctx, n + extra),
    ensures
        gen_params(ctx, params, n) is Ok,
        steady(gen_params(ctx, params, n)->Ok_0),
        same_depth(ctx, gen_params(ctx, params, n)->Ok_0),
        has_room(gen_params(ctx, params, n)->Ok_0, extra),
    decreases n,
{
    if n == 0 {
        lemma_room_shrinks(ctx, n + extra, extra);
    } else {
        lemma_params_within_limits(ctx, params, (n - 1) as nat, extra + 1);
        let mid = gen_params(ctx, params, (n - 1) as nat)->Ok_0;
        let last = mid.levels().len() - 1;
        assert(level_has_room(mid.scopes[mid.base][last], extra + 1));
        let after = mid.define_arg(params[n - 1].id@);
        assert forall|f: Seq<char>, i: int|
            after.scopes.contains_key(f) && 0 <= i < after.scopes[f].len() implies level_has_room(
            #[trigger] after.scopes[f][i],
            extra,
        ) by {
            if f == mid.base {
                if i < last {
                    assert(after.scopes[f][i] == mid.scopes[f][i]);
                    assert(level_has_room(mid.scopes[f][i], extra + 1));
                }
            } else {
                assert(level_has_room(mid.scopes[f][i], extra + 1));
            }
        }
        assert forall|f: Seq<char>| #[trigger]
            after.locals.contains_key(f) implies after.locals[f] + extra <= usize::MAX by {
            assert(mid.locals.contains_key(f));
        }
    }
}

/// The generator answers a sound statement, in a state with room for it,
/// with its code or with the name of a variable that the statement uses
/// and that is not declared where it is used. It leaves room for what the
/// statement did not need.
pub proof fn lemma_stmt_within_limits(ctx: AsmCtxView, s: Stmt, extra: nat)
    requires
        steady(ctx),
        sound_stmt(s, ctx.md),
        orderly(s, ctx.base == global_name()),
        table_fits(ctx.md),
        has_room(ctx, weight_stmt(s) + extra),
    ensures
        match gen_stmt(ctx, s) {
            Ok((after, _)) => steady(after) && same_depth(ctx, after) && has_room(after, extra),
            Err(err) => names_used(err, |id: Seq<char>| uses_stmt(s, id)),
        },
    decreases s, 0nat,
{
    let total = weight_stmt(s) + extra;
    match s {
        Stmt::Block(body, is_scope) => {
            let inner = if is_scope {
                ctx.push_scope()
            } else {
                ctx
            };
            lemma_fresh_level(ctx, total);
            lemma_room_shrinks(inner, total, weight_stmts(body, body.len() as nat) + extra);
            lemma_stmts_within_limits(inner, body, body.len() as nat, extra);
            match gen_stmts(inner, body, body.len() as nat) {
                Ok((c, _)) => {
                    if is_scope {
                        lemma_closed_level(c, extra);
                    }
                },
                Err(_) => {},
            }
        },
        Stmt::If(test, body, alter) => {
            let inner = ctx.next_label().next_label();
            lemma_labelled(ctx, total);
            lemma_expr_within_limits(inner, *test, false);
            lemma_room_shrinks(inner, (total - 1) as nat, weight_stmt(*body) + (weight_stmt(
                *alter,
            ) + extra));
            lemma_stmt_within_limits(inner, *body, weight_stmt(*alter) + extra);
            match gen_stmt(inner, *body) {
                Ok((c1, _)) => {
                    lemma_stmt_within_limits(c1, *alter, extra);
                },
                Err(_) => {},
            }
        },
        Stmt::While(test, body) => {
            let inner = ctx.next_label().next_label();
            lemma_labelled(ctx, total);
            lemma_expr_within_limits(inner, *test, false);
            lemma_room_shrinks(inner, (total - 1) as nat, weight_stmt(*body) + extra);
            lemma_stmt_within_limits(inner, *body, extra);
        },
        Stmt::Return(Some(value)) => {
            lemma_expr_within_limits(ctx, *value, false);
            lemma_room_shrinks(ctx, total, extra);
        },
        Stmt::Return(None) => {
            lemma_room_shrinks(ctx, total, extra);
        },
        Stmt::Declaration(id) => {
            lemma_defined(ctx, id.id@, extra);
        },
        Stmt::FunDecl(id, params, body) => {
            let start = ctx.add_fun(id.id@, params.len());
            lemma_room_shrinks(ctx, total, (total - 1) as nat);
            lemma_entered(
                ctx,
                id.id@,
                params.len(),
                params.len() as nat + weight_stmt(*body) + extra,
            );
            lemma_params_within_limits(
                start,
                params@,
                params.len() as nat,
                weight_stmt(*body) + extra,
            );
            let c0 = gen_params(start, params@, params.len() as nat)->Ok_0;
            lemma_stmt_within_limits(c0, *body, extra);
            match gen_stmt(c0, *body) {
                Ok((c1, _)) => {
                    lemma_left(c1, extra);
                },
                Err(_) => {},
            }
        },
        Stmt::Assignment(lhs, rhs) => {
            lemma_expr_within_limits(ctx, *rhs, false);
            lemma_expr_within_limits(ctx, *lhs, true);
            lemma_room_shrinks(ctx, total, extra);
        },
        Stmt::Struct(id, _) => {
            lemma_found_fits(ctx.md, id@);
            lemma_room_shrinks(ctx, total, extra);
            lemma_entered(ctx, id@, 0, extra);
            lemma_left(ctx.add_fun(id@, 0), extra);
        },
    }
}

proof fn lemma_stmts_within_limits(ctx: AsmCtxView, body: Vec<Box<Stmt>>, n: nat, extra: nat)
    requires
        steady(ctx),
        sound_stmts(body, n, ctx.md),
        orderly_all(body, n, ctx.base == global_name()),
        table_fits(ctx.md),
        n <= body.len(),
        has_room(ctx, weight_stmts(body, n) + extra),
    ensures
        match gen_stmts(ctx, body, n) {
            Ok((after, _)) => steady(after) && same_depth(ctx, after) && has_room(after, extra),
            Err(err) => names_used(err, |id: Seq<char>| uses_stmts(body, n, id)),
        },
    decreases body, n,
{
    if n == 0 {
        lemma_room_shrinks(ctx, weight_stmts(body, n) + extra, extra);
    } else {
        lemma_stmts_within_limits(ctx, body, (n - 1) as nat, weight_stmt(*body[n - 1]) + extra);
        match gen_stmts(ctx, body, (n - 1) as nat) {
            Ok((c, _)) => {
                lemma_stmt_within_limits(c, *body[n - 1], extra);
            },
            Err(_) => {},
        }
    }
}

/// Opening a scope level keeps the room, but for one node.
proof fn lemma_fresh_level(ctx: AsmCtxView, n: nat)
    requires
        ctx.wf(),
        has_room(ctx, n),
    ensures
        ctx.push_scope().wf(),
        has_room(ctx.push_scope(), n),
{
    let after = ctx.push_scope();
    assert forall|f: Seq<char>, i: int|
        after.scopes.contains_key(f) && 0 <= i < after.scopes[f].len() implies level_has_room(
        #[trigger] after.scopes[f][i],
        n,
    ) by {
        if f == ctx.base {
            if i < ctx.levels().len() {
                assert(after.scopes[f][i] == ctx.scopes[f][i]);
                assert(level_has_room(ctx.scopes[f][i], n));
            }
        } else {
            assert(level_has_room(ctx.scopes[f][i], n));
        }
    }
}

/// Closing a scope level keeps the room.
proof fn lemma_closed_level(ctx: AsmCtxView, n: nat)
    requires
        ctx.wf(),
        has_room(ctx, n),
    ensures
        ctx.pop_scope().wf(),
        has_room(ctx.pop_scope(), n),
{
    let after = ctx.pop_scope();
    assert forall|f: Seq<char>, i: int|
        after.scopes.contains_key(f) && 0 <= i < after.scopes[f].len() implies level_has_room(
        #[trigger] after.scopes[f][i],
        n,
    ) by {
        if f == ctx.base && ctx.levels().len() > 0 {
            assert(after.scopes[f][i] == ctx.scopes[f][i]);
        }
        assert(level_has_room(ctx.scopes[f][i], n));
    }
}

/// Two labels take the room of one node.
proof fn lemma_labelled(ctx: AsmCtxView, n: nat)
    requires
        ctx.wf(),
        has_room(ctx, n),
        n >= 1,
    ensures
        ctx.suffix + 2 <= usize::MAX,
        ctx.next_label().next_label().wf(),
        has_room(ctx.next_label().next_label(), (n - 1) as nat),
        ctx.next_label().next_label().md == ctx.md,
{
    let after = ctx.next_label().next_label();
    assert forall|f: Seq<char>, i: int|
        after.scopes.contains_key(f) && 0 <= i < after.scopes[f].len() implies level_has_room(
        #[trigger] after.scopes[f][i],
        (n - 1) as nat,
    ) by {
        assert(level_has_room(ctx.scopes[f][i], n));
    }
}

/// A declaration takes the room of one node.
proof fn lemma_defined(ctx: AsmCtxView, id: Seq<char>, extra: nat)
    requires
        ctx.wf(),
        ctx.has_level(),
        has_room(ctx, 1 + extra),
    ensures
        ctx.can_define(),
        ctx.define(id).wf(),
        has_room(ctx.define(id), extra),
{
    let after = ctx.define(id);
    let last = ctx.levels().len() - 1;
    assert(level_has_room(ctx.scopes[ctx.base][last], 1 + extra));
    assert forall|f: Seq<char>, i: int|
        after.scopes.contains_key(f) && 0 <= i < after.scopes[f].len() implies level_has_room(
        #[trigger] after.scopes[f][i],
        extra,
    ) by {
        if f == ctx.base {
            if i < last {
                assert(after.scopes[f][i] == ctx.scopes[f][i]);
                assert(level_has_room(ctx.scopes[f][i], 1 + extra));
            }
        } else {
            assert(level_has_room(ctx.scopes[f][i], 1 + extra));
        }
    }
    assert forall|f: Seq<char>| #[trigger]
        after.locals.contains_key(f) implies after.locals[f] + extra <= usize::MAX by {
        if f != ctx.base {
            assert(ctx.locals.contains_key(f));
        }
    }
}

/// Starting a function with `params` parameters leaves room for `n` nodes
/// where there was room for the parameters and `n` nodes.
proof fn lemma_entered(ctx: AsmCtxView, id: Seq<char>, params: usize, n: nat)
    requires
        ctx.wf(),
        has_room(ctx, params as nat + n),
    ensures
        ctx.add_fun(id, params).wf(),
        has_room(ctx.add_fun(id, params), n),
        ctx.add_fun(id, params).md == ctx.md,
{
    let after = ctx.add_fun(id, params);
    assert forall|f: Seq<char>, i: int|
        after.scopes.contains_key(f) && 0 <= i < after.scopes[f].len() implies level_has_room(
        #[trigger] after.scopes[f][i],
        n,
    ) by {
        if f != id {
            assert(level_has_room(ctx.scopes[f][i], params as nat + n));
        }
    }
    assert forall|f: Seq<char>| #[trigger]
        after.locals.contains_key(f) implies after.locals[f] + n <= usize::MAX by {
        if f != id {
            assert(ctx.locals.contains_key(f));
        }
    }
}

/// Leaving a function keeps the room.
proof fn lemma_left(ctx: AsmCtxView, n: nat)
    requires
        ctx.wf(),
        has_room(ctx, n),
    ensures
        ctx.pop_fun().wf(),
        has_room(ctx.pop_fun(), n),
        ctx.pop_fun().md == ctx.md,
{
    let after = ctx.pop_fun();
    assert forall|f: Seq<char>, i: int|
        after.scopes.contains_key(f) && 0 <= i < after.scopes[f].len() implies level_has_room(
        #[trigger] after.scopes[f][i],
        n,
    ) by {
        assert(level_has_room(ctx.scopes[f][i], n));
    }
}

/// The generator answers every sound and orderly program of moderate size
/// with its stream or with the name of a variable that the program uses and
/// that is not declared where it is used: it never fails otherwise.
///
/// A program is sound where its operators stand where they can and the
/// struct table `md` holds the structs it declares. It is orderly where
/// functions and structs are declared at the top level alone and none is
/// named like the top level. Its size is moderate where twice the number of
/// its nodes fits `usize` and the number itself, with a little room to
/// spare, fits `i64`.
pub proof fn lemma_generator_outcomes(s: Stmt, md: Seq<EstaStructView>)
    requires
        sound_stmt(s, md),
        orderly(s, true),
        table_fits(md),
        2 * weight_stmt(s) <= usize::MAX,
        weight_stmt(s) + 3 <= i64::MAX,
    ensures
        gen_program(AsmCtxView::top_level(md), s) matches Err(err) ==> names_used(
            err,
            |id: Seq<char>| uses_stmt(s, id),
        ),
{
    let ctx = AsmCtxView::top_level(md);
    assert(has_room(ctx, weight_stmt(s)));
    lemma_stmt_within_limits(ctx, s, 0);
}

} // verus!
