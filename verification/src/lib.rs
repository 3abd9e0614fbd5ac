//! Esta: a small imperative scripting language.
//!
//! The crate holds the front end, which reads a program, the compiler back
//! end, which turns the syntax tree into linear bytecode, and the stack
//! machine that runs the bytecode. Every function states what it computes
//! over mathematical models of its data.
use vstd::prelude::*;
use crate::backend::compiled;
use crate::backend::program::{Program, ProgramView};
use crate::backend::entry::{lemma_constant_main, lemma_constant_table, returns_constant};
use crate::error::{CompileErrorView, EstaError, EstaErrorView};
use crate::frontend::ast::Stmt;
use crate::frontend::grammar::{is_program, reads_program};
use crate::frontend::scanner::scanned;
use crate::middleend::types::{collected, fits};
use crate::vm::protocol::lemma_run_settles;
use crate::vm::semantics::{Step, VMError, VMView};
use crate::vm::{initial_state, VirtualMachine};

pub mod backend;
pub mod error;
pub mod frontend;
pub mod middleend;
pub mod util;
pub mod vm;

verus! {

/// The code of a program, or the first error on the way to it. The struct
/// table is collected first; then the program is compiled with it.
pub open spec fn translated(stmts: Stmt) -> Result<ProgramView, EstaErrorView> {
    if !fits(stmts) {
        Err(EstaErrorView::Compile(CompileErrorView::LimitExceeded))
    } else {
        match collected(stmts) {
            None => Err(EstaErrorView::Compile(CompileErrorView::NoStructsFound)),
            Some(md) => match compiled(stmts, md) {
                Err(e) => Err(EstaErrorView::Compile(e)),
                Ok(program) => Ok(program),
            },
        }
    }
}

/// What becomes of a program: the state in which the machine halts on it,
/// or the first error on the way there. The program is translated; then
/// the machine runs the code from its initial state for at most 2^64 - 1
/// steps.
pub open spec fn outcome(stmts: Stmt) -> Result<VMView, EstaErrorView> {
    match translated(stmts) {
        Err(e) => Err(e),
        Ok(program) => match initial_state(program.code, program.data_segment).run(
            u64::MAX as nat,
        ) {
            Step::Halted(last) => Ok(last),
            Step::Running(_) => Err(EstaErrorView::Run(VMError::StepLimit)),
            Step::Fatal(e) => Err(EstaErrorView::Run(e)),
        },
    }
}

/// Every program that consists of `fun main() { return k; }` runs to its
/// end and leaves `k` as the one value on the stack of the machine.
pub proof fn lemma_constant_outcome(stmts: Stmt, k: i64)
    requires
        returns_constant(stmts, k),
    ensures
        outcome(stmts) is Ok,
        outcome(stmts)->Ok_0.stack == seq![k],
{
    lemma_constant_table(stmts, k);
    let md = Seq::<crate::frontend::ast::EstaStructView>::empty();
    lemma_constant_main(stmts, md, k);
    let program = compiled(stmts, md)->Ok_0;
    lemma_run_settles(initial_state(program.code, program.data_segment), 10, u64::MAX as nat);
}

/// Collects the struct table of a program and compiles the program.
pub fn translate(stmts: Stmt) -> (r: Result<Program, EstaError>)
    ensures
        match translated(stmts) {
            Ok(program) => r is Ok && r->Ok_0@ == program,
            Err(e) => r is Err && r->Err_0@ == e,
        },
{
    let (stmts, md) = match middleend::run(stmts) {
        Err(e) => {
            return Err(EstaError::Compile(e));
        },
        Ok(pair) => pair,
    };
    match backend::generate(stmts, md) {
        Err(e) => Err(EstaError::Compile(e)),
        Ok(program) => Ok(program),
    }
}

/// Compiles a program and runs it to its end. The result is the machine as
/// it halted, or the first error.
pub fn execute(stmts: Stmt) -> (r: Result<VirtualMachine, EstaError>)
    ensures
        match outcome(stmts) {
            Ok(last) => r is Ok && r->Ok_0@ == last,
            Err(e) => r is Err && r->Err_0@ == e,
        },
{
    let program = match translate(stmts) {
        Err(e) => {
            return Err(e);
        },
        Ok(program) => program,
    };
    let mut machine = VirtualMachine::new(program);
    match machine.run() {
        Ok(()) => Ok(machine),
        Err(e) => Err(EstaError::Run(e)),
    }
}

/// Whether `r` is the translation `expected` of a program.
pub open spec fn delivers(
    r: Result<Program, EstaError>,
    expected: Result<ProgramView, EstaErrorView>,
) -> bool {
    match expected {
        Ok(program) => r is Ok && r->Ok_0@ == program,
        Err(e) => r is Err && r->Err_0@ == e,
    }
}

/// Reads and compiles a source text. The call fails with `Parse` exactly
/// where the text is no program; else it hands out the translation of a
/// program that the text reads as.
pub fn compile(input: &str) -> (r: Result<Program, EstaError>)
    ensures
        match scanned(input@, 0) {
            None => r is Err && r->Err_0@ == EstaErrorView::Parse,
            Some(tokens) => if is_program(tokens) {
                exists|program: Stmt| #[trigger]
                    reads_program(program, tokens) && delivers(r, translated(program))
            } else {
                r is Err && r->Err_0@ == EstaErrorView::Parse
            },
        },
{
    let stmts = match frontend::run(input) {
        Err(_) => {
            return Err(EstaError::Parse);
        },
        Ok(stmts) => stmts,
    };
    let ghost program = stmts;
    let r = translate(stmts);
    proof {
        assert(reads_program(program, scanned(input@, 0)->Some_0) && delivers(
            r,
            translated(program),
        ));
    }
    r
}

/// Whether `r` reports the outcome `expected` of a program.
pub open spec fn reports(r: Result<(), EstaError>, expected: Result<VMView, EstaErrorView>) -> bool {
    match expected {
        Ok(_) => r is Ok,
        Err(e) => r is Err && r->Err_0@ == e,
    }
}

/// Reads, compiles and runs a source text. The call fails with `Parse`
/// exactly where the text is no program; else it reports what became of a
/// program that the text reads as.
pub fn run(input: &str) -> (r: Result<(), EstaError>)
    ensures
        match scanned(input@, 0) {
            None => r is Err && r->Err_0@ == EstaErrorView::Parse,
            Some(tokens) => if is_program(tokens) {
                exists|program: Stmt| #[trigger]
                    reads_program(program, tokens) && reports(r, outcome(program))
            } else {
                r is Err && r->Err_0@ == EstaErrorView::Parse
            },
        },
{
    let stmts = match frontend::run(input) {
        Err(_) => {
            return Err(EstaError::Parse);
        },
        Ok(stmts) => stmts,
    };
    let ghost program = stmts;
    let r = match execute(stmts) {
        Ok(_) => Ok(()),
        Err(e) => Err(e),
    };
    proof {
        assert(reads_program(program, scanned(input@, 0)->Some_0) && reports(
            r,
            outcome(program),
        ));
    }
    r
}

} // verus!
