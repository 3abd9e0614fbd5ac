//! The meaning of expressions without variables and calls, and the proof
//! that the code emitted for them computes it.
use vstd::prelude::*;
use crate::backend::assembly_context::AsmCtxView;
use crate::backend::codegen::{binary_opcode, gen_expr, literal_value, unary_opcode};
use crate::backend::program::{insts_of, label_offsets, link, resolve, resolved};
use crate::error::CompileErrorView;
use crate::frontend::ast::Expr;
use crate::vm::bytecode::{Inst, MetaAsmView, MetaVarView};
use crate::vm::protocol::lemma_run_split;
use crate::vm::semantics::{binary_result, is_binary, is_unary, unary_result, Step, VMError, VMView};

verus! {

/// Whether an expression is built from literals and well-placed operators
/// alone.
pub open spec fn pure(e: Expr) -> bool
    decreases e,
{
    match e {
        Expr::Literal(_) => true,
        Expr::BinaryOp(lhs, op, rhs) => binary_opcode(op) is Some && pure(*lhs) && pure(*rhs),
        Expr::UnaryOp(op, rhs) => unary_opcode(op) is Some && pure(*rhs),
        _ => false,
    }
}

/// The value of a pure expression: integers with sums, differences and
/// products that wrap around, quotients rounded towards zero, and truth
/// values 0 and 1. The result is `None` where a divisor is 0.
pub open spec fn eval(e: Expr) -> Option<i64>
    decreases e,
{
    match e {
        Expr::Literal(lit) => Some(literal_value(lit)),
        Expr::BinaryOp(lhs, op, rhs) => match eval(*lhs) {
            None => None,
            Some(a) => match eval(*rhs) {
                None => None,
                Some(b) => match binary_opcode(op) {
                    None => None,
                    Some(code) => binary_result(code, a, b),
                },
            },
        },
        Expr::UnaryOp(op, rhs) => match eval(*rhs) {
            None => None,
            Some(a) => match unary_opcode(op) {
                None => None,
                Some(code) => Some(unary_result(code, a)),
            },
        },
        _ => None,
    }
}

/// The instruction that a stream item is without linking: an instruction
/// with a literal operand or none.
pub open spec fn plain(item: MetaAsmView) -> Option<Inst> {
    match item {
        MetaAsmView::Inst(i) => match i.var {
            MetaVarView::Empty => Some(Inst { inst: i.inst, data: None }),
            MetaVarView::Data(d) => Some(Inst { inst: i.inst, data: Some(d) }),
            _ => None,
        },
        MetaAsmView::Lbl(_) => None,
    }
}

/// Whether a stream holds only instructions that need no linking.
pub open spec fn all_plain(stream: Seq<MetaAsmView>) -> bool {
    forall|i: int| 0 <= i < stream.len() ==> plain(#[trigger] stream[i]) is Some
}

/// The instructions of a stream that needs no linking.
pub open spec fn plain_code(stream: Seq<MetaAsmView>) -> Seq<Inst> {
    Seq::new(stream.len(), |i: int| plain(stream[i]).unwrap())
}

/// The generator accepts every pure expression, in any state, and the code
/// it emits needs no linking.
pub proof fn lemma_pure_is_plain(ctx: AsmCtxView, e: Expr, l_value: bool)
    requires
        pure(e),
    ensures
        gen_expr(ctx, e, l_value) is Ok,
        all_plain(gen_expr(ctx, e, l_value)->Ok_0),
        gen_expr(ctx, e, l_value) == gen_expr(ctx, e, false),
    decreases e,
{
    match e {
        Expr::BinaryOp(lhs, _, rhs) => {
            lemma_pure_is_plain(ctx, *lhs, false);
            lemma_pure_is_plain(ctx, *rhs, false);
        },
        Expr::UnaryOp(_, rhs) => {
            lemma_pure_is_plain(ctx, *rhs, false);
        },
        _ => {},
    }
}

/// A stream that needs no linking links to its own instructions.
pub proof fn lemma_plain_links(stream: Seq<MetaAsmView>, locals: Map<Seq<char>, usize>)
    requires
        all_plain(stream),
    ensures
        link(stream, locals) == Ok::<Seq<Inst>, CompileErrorView>(plain_code(stream)),
{
    lemma_plain_prefix(stream, locals, stream.len());
    assert(plain_code(stream.take(stream.len() as int)) =~= plain_code(stream));
}

proof fn lemma_plain_prefix(stream: Seq<MetaAsmView>, locals: Map<Seq<char>, usize>, n: nat)
    requires
        all_plain(stream),
        n <= stream.len(),
    ensures
        insts_of(stream, n).len() == n,
        forall|i: int| 0 <= i < n ==> MetaAsmView::Inst(#[trigger] insts_of(stream, n)[i]) == stream[i],
        resolved(insts_of(stream, stream.len()), label_offsets(stream, stream.len()), locals, n)
            == Ok::<Seq<Inst>, CompileErrorView>(plain_code(stream.take(n as int))),
    decreases n,
{
    let all = insts_of(stream, stream.len());
    let offsets = label_offsets(stream, stream.len());
    if n == 0 {
        assert(plain_code(stream.take(0)) =~= Seq::<Inst>::empty());
    } else {
        lemma_plain_prefix(stream, locals, (n - 1) as nat);
        lemma_insts_of_plain(stream, stream.len());
        assert(plain(stream[n - 1]) is Some);
        assert(MetaAsmView::Inst(all[n - 1]) == stream[n - 1]);
        assert(resolve(all[n - 1], offsets, locals) == Ok::<Inst, CompileErrorView>(
            plain(stream[n - 1]).unwrap(),
        ));
        assert(plain_code(stream.take(n as int)) =~= plain_code(stream.take(n - 1)).push(
            plain(stream[n - 1]).unwrap(),
        ));
    }
}

proof fn lemma_insts_of_plain(stream: Seq<MetaAsmView>, n: nat)
    requires
        all_plain(stream),
        n <= stream.len(),
    ensures
        insts_of(stream, n).len() == n,
        forall|i: int| 0 <= i < n ==> MetaAsmView::Inst(#[trigger] insts_of(stream, n)[i]) == stream[i],
    decreases n,
{
    if n > 0 {
        lemma_insts_of_plain(stream, (n - 1) as nat);
        assert(plain(stream[n - 1]) is Some);
    }
}

/// Whether the code of `s` holds `code` from the program counter on.
pub open spec fn at_code(s: VMView, code: Seq<Inst>) -> bool {
    &&& 0 <= s.pc
    &&& s.pc + code.len() <= s.code.len()
    &&& s.code.subrange(s.pc, s.pc + code.len()) == code
}

/// The state after an expression was evaluated to `v`: the value lies on
/// top of the stack and the program counter stands behind the code.
pub open spec fn evaluated(s: VMView, steps: int, v: i64) -> VMView {
    VMView { stack: s.stack.push(v), pc: s.pc + steps, ..s }
}

/// The code of a pure expression computes the value of the expression.
///
/// Where a machine stands at the code emitted for the pure expression `e`,
/// running it for as many steps as the code has instructions leaves the
/// stack as it was with the value of `e` on top, and the program counter
/// behind the code. Where the evaluation of `e` divides by zero, the
/// machine fails with `DivisionByZero`.
pub proof fn lemma_pure_expression_runs(ctx: AsmCtxView, e: Expr, s: VMView)
    requires
        pure(e),
        at_code(s, plain_code(gen_expr(ctx, e, false)->Ok_0)),
    ensures
        s.run(gen_expr(ctx, e, false)->Ok_0.len()) == match eval(e) {
            Some(v) => Step::Running(evaluated(s, gen_expr(ctx, e, false)->Ok_0.len() as int, v)),
            None => Step::Fatal(VMError::DivisionByZero),
        },
    decreases e,
{
    lemma_pure_is_plain(ctx, e, false);
    let stream = gen_expr(ctx, e, false)->Ok_0;
    let code = plain_code(stream);
    match e {
        Expr::Literal(lit) => {
            reveal_with_fuel(VMView::run, 2);
            assert(s.code[s.pc] == code[0]);
            assert(s.step() == Step::Running(evaluated(s, 1, literal_value(lit))));
        },
        Expr::BinaryOp(lhs, op, rhs) => {
            lemma_pure_is_plain(ctx, *lhs, false);
            lemma_pure_is_plain(ctx, *rhs, false);
            let a = gen_expr(ctx, *lhs, false)->Ok_0;
            let b = gen_expr(ctx, *rhs, false)->Ok_0;
            let bc = binary_opcode(op).unwrap();
            let na = a.len() as int;
            let nb = b.len() as int;
            assert(stream.len() == na + nb + 1);
            assert(plain_code(a) =~= code.subrange(0, na as int));
            assert(plain_code(b) =~= code.subrange(na as int, na + nb));
            assert(code[na + nb] == Inst { inst: bc, data: None });
            assert(s.code.subrange(s.pc, s.pc + na) =~= code.subrange(0, na as int));
            lemma_pure_expression_runs(ctx, *lhs, s);
            lemma_run_split(s, na as nat, (nb + 1) as nat);
            match eval(*lhs) {
                None => {},
                Some(va) => {
                    let s1 = evaluated(s, na as int, va);
                    assert(s1.code.subrange(s1.pc, s1.pc + nb) =~= code.subrange(
                        na as int,
                        na + nb,
                    ));
                    lemma_pure_expression_runs(ctx, *rhs, s1);
                    lemma_run_split(s1, nb as nat, 1);
                    match eval(*rhs) {
                        None => {},
                        Some(vb) => {
                            let s2 = evaluated(s1, nb as int, vb);
                            reveal_with_fuel(VMView::run, 2);
                            assert(s2.code[s2.pc] == code[na + nb]);
                            assert(is_binary(bc));
                            assert(s2.stack.take(s2.stack.len() - 2) =~= s.stack);
                            match binary_result(bc, va, vb) {
                                None => {
                                    assert(s2.step() == Step::Fatal(VMError::DivisionByZero));
                                },
                                Some(v) => {
                                    assert(s2.step() == Step::Running(
                                        evaluated(s, stream.len() as int, v),
                                    ));
                                },
                            }
                        },
                    }
                },
            }
        },
        Expr::UnaryOp(op, rhs) => {
            lemma_pure_is_plain(ctx, *rhs, false);
            let a = gen_expr(ctx, *rhs, false)->Ok_0;
            let uc = unary_opcode(op).unwrap();
            let na = a.len() as int;
            assert(stream.len() == na + 1);
            assert(plain_code(a) =~= code.subrange(0, na as int));
            assert(code[na as int] == Inst { inst: uc, data: None });
            assert(s.code.subrange(s.pc, s.pc + na) =~= code.subrange(0, na as int));
            lemma_pure_expression_runs(ctx, *rhs, s);
            lemma_run_split(s, na as nat, 1);
            match eval(*rhs) {
                None => {},
                Some(va) => {
                    let s1 = evaluated(s, na as int, va);
                    reveal_with_fuel(VMView::run, 2);
                    assert(s1.code[s1.pc] == code[na as int]);
                    assert(is_unary(uc));
                    assert(s1.stack.drop_last() =~= s.stack);
                    assert(s1.step() == Step::Running(
                        evaluated(s, stream.len() as int, unary_result(uc, va)),
                    ));
                },
            }
        },
        _ => {},
    }
}

} // verus!
