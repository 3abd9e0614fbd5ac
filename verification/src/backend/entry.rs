//! The smallest whole program, from source to result: a `main` that
//! returns a constant.
use vstd::prelude::*;
use crate::backend::assembly_context::AsmCtxView;
use crate::backend::codegen::{entry_name, gen_program, gen_stmt, gen_stmts};
use crate::backend::compiled;
use crate::backend::program::{insts_of, label_offsets, resolve, resolved};
use crate::error::CompileErrorView;
use crate::frontend::ast::{EstaStructView, Expr, Literal, Stmt};
use crate::middleend::types::{collected, fits, fits_all, found, found_all, tagged};
use crate::vm::bytecode::{
    asm_data, asm_inst, asm_label, asm_local_alloc, ByteCode, Inst, MetaAsmView,
};
use crate::vm::initial_state;
use crate::vm::semantics::{Step, VMView};

verus! {

/// Whether a program consists of a function `main` without parameters
/// whose body is the statement `return k;`.
pub open spec fn returns_constant(s: Stmt, k: i64) -> bool {
    &&& s matches Stmt::Block(body, _)
    &&& body.len() == 1
    &&& *body[0] matches Stmt::FunDecl(id, params, inner)
    &&& id.id@ == entry_name()
    &&& params.len() == 0
    &&& *inner matches Stmt::Block(stmts, _)
    &&& stmts.len() == 1
    &&& *stmts[0] matches Stmt::Return(Some(value))
    &&& *value matches Expr::Literal(Literal::Number(n))
    &&& n == k
}

/// The stream of the program `fun main() { return k; }`.
pub open spec fn constant_stream(k: i64) -> Seq<MetaAsmView> {
    seq![
        asm_data(ByteCode::ALLOC, 1),
        asm_inst(ByteCode::MARK),
        asm_label(ByteCode::LOADC, entry_name()),
        asm_inst(ByteCode::CALL),
        asm_inst(ByteCode::HALT),
        MetaAsmView::Lbl(entry_name()),
        asm_local_alloc(ByteCode::ALLOC, entry_name()),
        asm_data(ByteCode::LOADC, k),
        asm_data(ByteCode::LOADRC, -3i64),
        asm_inst(ByteCode::STORE),
        asm_data(ByteCode::RET, 2),
        asm_data(ByteCode::RET, 2),
    ]
}

/// The code of the program `fun main() { return k; }`.
pub open spec fn constant_code(k: i64) -> Seq<Inst> {
    seq![
        Inst { inst: ByteCode::ALLOC, data: Some(1) },
        Inst { inst: ByteCode::MARK, data: None },
        Inst { inst: ByteCode::LOADC, data: Some(5) },
        Inst { inst: ByteCode::CALL, data: None },
        Inst { inst: ByteCode::HALT, data: None },
        Inst { inst: ByteCode::ALLOC, data: Some(0) },
        Inst { inst: ByteCode::LOADC, data: Some(k) },
        Inst { inst: ByteCode::LOADRC, data: Some(-3i64) },
        Inst { inst: ByteCode::STORE, data: None },
        Inst { inst: ByteCode::RET, data: Some(2) },
        Inst { inst: ByteCode::RET, data: Some(2) },
    ]
}

/// The generator emits the expected stream for `fun main() { return k; }`
/// and counts no local for `main`.
proof fn lemma_constant_stream(s: Stmt, md: Seq<EstaStructView>, k: i64)
    requires
        returns_constant(s, k),
    ensures
        gen_program(AsmCtxView::top_level(md), s) is Ok,
        gen_program(AsmCtxView::top_level(md), s)->Ok_0.1 == constant_stream(k),
        gen_program(AsmCtxView::top_level(md), s)->Ok_0.0.locals.contains_key(entry_name()),
        gen_program(AsmCtxView::top_level(md), s)->Ok_0.0.locals[entry_name()] == 0,
        gen_program(AsmCtxView::top_level(md), s)->Ok_0.0.md == md,
{
    let ctx = AsmCtxView::top_level(md);
    let body = s->Block_0;
    let fun = *body[0];
    let inner = *fun->FunDecl_2;
    let stmts = inner->Block_0;
    let ret = *stmts[0];
    reveal_with_fuel(gen_stmts, 2);
    reveal_with_fuel(crate::backend::codegen::gen_params, 2);
    let outer = if s->Block_1 {
        ctx.push_scope()
    } else {
        ctx
    };
    let start = outer.add_fun(entry_name(), 0);
    let within = if inner->Block_1 {
        start.push_scope()
    } else {
        start
    };
    assert(gen_stmt(within, ret) == Ok::<(AsmCtxView, Seq<MetaAsmView>), CompileErrorView>(
        (
            within,
            seq![asm_data(ByteCode::LOADC, k)] + crate::backend::codegen::return_value(),
        ),
    ));
    assert(gen_stmts(within, stmts, 1) is Ok);
    assert(gen_stmt(start, inner) is Ok);
    let code_fun = gen_stmt(outer, fun)->Ok_0.1;
    assert(gen_stmt(outer, fun) is Ok);
    assert(gen_stmts(outer, body, 1) is Ok);
    assert(gen_stmt(ctx, s) is Ok);
    assert(gen_program(ctx, s)->Ok_0.1 =~= constant_stream(k));
}

/// The program `fun main() { return k; }` compiles, whatever the struct
/// table, to eleven instructions: the bootstrap, and a `main` that loads `k`,
/// stores it to the result slot and returns.
pub proof fn lemma_constant_compiles(s: Stmt, md: Seq<EstaStructView>, k: i64)
    requires
        returns_constant(s, k),
    ensures
        compiled(s, md) is Ok,
        compiled(s, md)->Ok_0.code == constant_code(k),
{
    lemma_constant_stream(s, md, k);
    let after = gen_program(AsmCtxView::top_level(md), s)->Ok_0.0;
    let stream = constant_stream(k);
    let locals = after.locals;
    lemma_constant_insts(k);
    let insts = insts_of(stream, 12);
    let offsets = label_offsets(stream, 12);
    let code = constant_code(k);
    assert(resolved(insts, offsets, locals, 0)->Ok_0 =~= code.take(0));
    assert(resolve(insts[0], offsets, locals) == Ok::<Inst, CompileErrorView>(code[0]));
    assert(resolved(insts, offsets, locals, 1) is Ok);
    assert(resolved(insts, offsets, locals, 1)->Ok_0 =~= code.take(1));
    assert(resolve(insts[1], offsets, locals) == Ok::<Inst, CompileErrorView>(code[1]));
    assert(resolved(insts, offsets, locals, 2) is Ok);
    assert(resolved(insts, offsets, locals, 2)->Ok_0 =~= code.take(2));
    assert(resolve(insts[2], offsets, locals) == Ok::<Inst, CompileErrorView>(code[2]));
    assert(resolved(insts, offsets, locals, 3) is Ok);
    assert(resolved(insts, offsets, locals, 3)->Ok_0 =~= code.take(3));
    assert(resolve(insts[3], offsets, locals) == Ok::<Inst, CompileErrorView>(code[3]));
    assert(resolved(insts, offsets, locals, 4) is Ok);
    assert(resolved(insts, offsets, locals, 4)->Ok_0 =~= code.take(4));
    assert(resolve(insts[4], offsets, locals) == Ok::<Inst, CompileErrorView>(code[4]));
    assert(resolved(insts, offsets, locals, 5) is Ok);
    assert(resolved(insts, offsets, locals, 5)->Ok_0 =~= code.take(5));
    assert(resolve(insts[5], offsets, locals) == Ok::<Inst, CompileErrorView>(code[5]));
    assert(resolved(insts, offsets, locals, 6) is Ok);
    assert(resolved(insts, offsets, locals, 6)->Ok_0 =~= code.take(6));
    assert(resolve(insts[6], offsets, locals) == Ok::<Inst, CompileErrorView>(code[6]));
    assert(resolved(insts, offsets, locals, 7) is Ok);
    assert(resolved(insts, offsets, locals, 7)->Ok_0 =~= code.take(7));
    assert(resolve(insts[7], offsets, locals) == Ok::<Inst, CompileErrorView>(code[7]));
    assert(resolved(insts, offsets, locals, 8) is Ok);
    assert(resolved(insts, offsets, locals, 8)->Ok_0 =~= code.take(8));
    assert(resolve(insts[8], offsets, locals) == Ok::<Inst, CompileErrorView>(code[8]));
    assert(resolved(insts, offsets, locals, 9) is Ok);
    assert(resolved(insts, offsets, locals, 9)->Ok_0 =~= code.take(9));
    assert(resolve(insts[9], offsets, locals) == Ok::<Inst, CompileErrorView>(code[9]));
    assert(resolved(insts, offsets, locals, 10) is Ok);
    assert(resolved(insts, offsets, locals, 10)->Ok_0 =~= code.take(10));
    assert(resolve(insts[10], offsets, locals) == Ok::<Inst, CompileErrorView>(code[10]));
    assert(resolved(insts, offsets, locals, 11) is Ok);
    assert(resolved(insts, offsets, locals, 11)->Ok_0 =~= code.take(11));
    assert(code.take(11) =~= code);
}

/// The instructions and the one label of the stream of `fun main() { return k; }`.
proof fn lemma_constant_insts(k: i64)
    ensures
        insts_of(constant_stream(k), 12).len() == 11,
        forall|i: int|
            0 <= i < 5 ==> MetaAsmView::Inst(#[trigger] insts_of(constant_stream(k), 12)[i])
                == constant_stream(k)[i],
        forall|i: int|
            5 <= i < 11 ==> MetaAsmView::Inst(#[trigger] insts_of(constant_stream(k), 12)[i])
                == constant_stream(k)[i + 1],
        label_offsets(constant_stream(k), 12).contains_key(entry_name()),
        label_offsets(constant_stream(k), 12)[entry_name()] == 5,
{
    let stream = constant_stream(k);
    assert(insts_of(stream, 0) =~= Seq::empty());
    assert(label_offsets(stream, 0) =~= Map::empty());
    assert(insts_of(stream, 1) =~= insts_of(stream, 0).push(stream[0]->Inst_0));
    assert(label_offsets(stream, 1) =~= Map::empty());
    assert(insts_of(stream, 2) =~= insts_of(stream, 1).push(stream[1]->Inst_0));
    assert(label_offsets(stream, 2) =~= Map::empty());
    assert(insts_of(stream, 3) =~= insts_of(stream, 2).push(stream[2]->Inst_0));
    assert(label_offsets(stream, 3) =~= Map::empty());
    assert(insts_of(stream, 4) =~= insts_of(stream, 3).push(stream[3]->Inst_0));
    assert(label_offsets(stream, 4) =~= Map::empty());
    assert(insts_of(stream, 5) =~= insts_of(stream, 4).push(stream[4]->Inst_0));
    assert(label_offsets(stream, 5) =~= Map::empty());
    assert(insts_of(stream, 6) =~= insts_of(stream, 5));
    assert(insts_of(stream, 5).len() == 5);
    assert(label_offsets(stream, 6) =~= Map::<Seq<char>, nat>::empty().insert(entry_name(), 5));
    assert(insts_of(stream, 7) =~= insts_of(stream, 6).push(stream[6]->Inst_0));
    assert(label_offsets(stream, 7) =~= label_offsets(stream, 6));
    assert(insts_of(stream, 8) =~= insts_of(stream, 7).push(stream[7]->Inst_0));
    assert(label_offsets(stream, 8) =~= label_offsets(stream, 6));
    assert(insts_of(stream, 9) =~= insts_of(stream, 8).push(stream[8]->Inst_0));
    assert(label_offsets(stream, 9) =~= label_offsets(stream, 6));
    assert(insts_of(stream, 10) =~= insts_of(stream, 9).push(stream[9]->Inst_0));
    assert(label_offsets(stream, 10) =~= label_offsets(stream, 6));
    assert(insts_of(stream, 11) =~= insts_of(stream, 10).push(stream[10]->Inst_0));
    assert(label_offsets(stream, 11) =~= label_offsets(stream, 6));
    assert(insts_of(stream, 12) =~= insts_of(stream, 11).push(stream[11]->Inst_0));
    assert(label_offsets(stream, 12) =~= label_offsets(stream, 6));
}

/// Compiling and running `fun main() { return k; }` leaves `k` as the one
/// value on the stack when the machine halts, for every `k`.
pub proof fn lemma_constant_main(s: Stmt, md: Seq<EstaStructView>, k: i64)
    requires
        returns_constant(s, k),
    ensures
        compiled(s, md) is Ok,
        initial_state(compiled(s, md)->Ok_0.code, compiled(s, md)->Ok_0.data_segment).run(10)
            is Halted,
        initial_state(compiled(s, md)->Ok_0.code, compiled(s, md)->Ok_0.data_segment).run(
            10,
        )->Halted_0.stack == seq![k],
{
    lemma_constant_compiles(s, md, k);
    let program = compiled(s, md)->Ok_0;
    let code = constant_code(k);
    let s0 = initial_state(program.code, program.data_segment);
    let s1 = VMView { stack: seq![0i64], pc: 1, ..s0 };
    assert(s0.stack + crate::vm::semantics::zeros(1) =~= seq![0i64]);
    assert(s0.step() == Step::Running(s1));
    let s2 = VMView { stack: seq![0i64, 1], pc: 2, ..s0 };
    assert(s1.stack.push(1i64) =~= seq![0i64, 1]);
    assert(s1.step() == Step::Running(s2));
    let s3 = VMView { stack: seq![0i64, 1, 5], pc: 3, ..s0 };
    assert(s2.stack.push(5i64) =~= seq![0i64, 1, 5]);
    assert(s2.step() == Step::Running(s3));
    let s4 = VMView { stack: seq![0i64, 1, 4], pc: 5, fp: 3, ..s0 };
    assert(s3.stack.drop_last().push(4i64) =~= seq![0i64, 1, 4]);
    assert(s3.step() == Step::Running(s4));
    let s5 = VMView { pc: 6, ..s4 };
    assert(s4.stack + crate::vm::semantics::zeros(0) =~= s4.stack);
    assert(s4.step() == Step::Running(s5));
    let s6 = VMView { stack: seq![0i64, 1, 4, k], pc: 7, ..s4 };
    assert(s5.stack.push(k) =~= seq![0i64, 1, 4, k]);
    assert(s5.step() == Step::Running(s6));
    let s7 = VMView { stack: seq![0i64, 1, 4, k, 0], pc: 8, ..s4 };
    assert(s6.stack.push(0i64) =~= seq![0i64, 1, 4, k, 0]);
    assert(s6.step() == Step::Running(s7));
    let s8 = VMView { stack: seq![k, 1, 4, k], pc: 9, ..s4 };
    assert(s7.stack.drop_last().update(0, k) =~= seq![k, 1, 4, k]);
    assert(s7.step() == Step::Running(s8));
    let s9 = VMView { stack: seq![k], pc: 4, fp: 1, ..s0 };
    assert(s8.stack.take(1) =~= seq![k]);
    assert(s8.step() == Step::Running(s9));
    assert(s9.step() == Step::Halted(VMView { pc: 5, ..s9 }));
    reveal_with_fuel(VMView::run, 11);
}

/// A program that consists of `fun main() { return k; }` declares no
/// struct: its struct table is empty.
pub proof fn lemma_constant_table(s: Stmt, k: i64)
    requires
        returns_constant(s, k),
    ensures
        fits(s),
        collected(s) == Some(Seq::<EstaStructView>::empty()),
{
    let body = s->Block_0;
    let fun = *body[0];
    let inner = *fun->FunDecl_2;
    let stmts = inner->Block_0;
    reveal_with_fuel(found_all, 2);
    reveal_with_fuel(fits_all, 2);
    assert(fits(*stmts[0]));
    assert(fits_all(stmts, 1));
    assert(fits(inner));
    assert(fits(fun));
    assert(fits_all(body, 1));
    assert(found(*stmts[0]) is None);
    assert(found_all(stmts, 1) =~= Seq::<EstaStructView>::empty());
    assert(found(inner) == Some(Seq::<EstaStructView>::empty()));
    assert(found(fun) == Some(Seq::<EstaStructView>::empty()));
    assert(found_all(body, 1) =~= Seq::<EstaStructView>::empty());
    assert(found(s) == Some(Seq::<EstaStructView>::empty()));
    assert(tagged(Seq::<EstaStructView>::empty()) =~= Seq::<EstaStructView>::empty());
}

} // verus!
