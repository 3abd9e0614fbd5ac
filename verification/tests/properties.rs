use esta::backend::assembly_context::AsmCtx;
use esta::backend::{dispatch_stmt, generate};
use esta::error::CompileError;
use esta::execute;
use esta::translate;
use esta::frontend;
use esta::frontend::ast::{Expr, Identifier, Literal, Stmt};
use esta::middleend;
use esta::middleend::MetaData;
use esta::vm::bytecode::{ByteCode, Inst};
use esta::vm::encoding::{assemble_u8, disassemble_u8};
use esta::vm::{VMStatus, VirtualMachine};

fn compile(source: &str) -> esta::backend::program::Program {
    esta::compile(source).unwrap()
}

const SAMPLE: &str = "
    struct Pair { first, second }
    fun max(a, b) { if a < b { return b; } else { return a; } }
    fun count(n) { var i; var total; i = 0; total = 0;
                   while i != n { i = i + 1; total = total + max(i, 3); }
                   return total; }
    fun main() { var p; p = Pair(); return count(5) + p; }
";

#[test]
fn jumps_of_a_compiled_program_stay_inside_the_code() {
    let program = compile(SAMPLE);
    let n = program.code.len() as i64;
    let mut jumps = 0;
    for inst in &program.code {
        if inst.inst == ByteCode::JUMP || inst.inst == ByteCode::JUMPZ {
            let target = inst.data.unwrap();
            assert!(0 <= target && target < n);
            jumps += 1;
        }
        assert!(inst.is_well_formed());
    }
    assert_eq!(jumps, 4);
}

#[test]
fn alloc_reserves_one_cell_per_declared_local() {
    let program = compile(SAMPLE);
    let starts: Vec<i64> = program
        .code
        .iter()
        .enumerate()
        .filter(|(at, inst)| {
            *at >= 5 && inst.inst == ByteCode::ALLOC && program.code[at - 1].inst == ByteCode::RET
        })
        .map(|(_, inst)| inst.data.unwrap())
        .collect();
    assert_eq!(starts, vec![0, 2, 1]);
}

#[test]
fn a_call_leaves_one_value_more_than_before_it() {
    let program = compile("fun f(a, b, c) { return b; } fun main() { return f(1, 2, 3) + 10; }");
    let slide = program.code.iter().position(|i| i.inst == ByteCode::SLIDE).unwrap();
    assert_eq!(program.code[slide], Inst::new_data(ByteCode::SLIDE, 3));
    let mut first = slide;
    while !(program.code[first] == Inst::new_data(ByteCode::ALLOC, 1)) {
        first -= 1;
    }
    let mut vm = VirtualMachine::new(program);
    let mut before = None;
    let mut after = None;
    for _ in 0..200 {
        if vm.pc() == first && before.is_none() {
            before = Some(vm.stack().len());
        }
        let at = vm.pc();
        let status = vm.step().unwrap();
        if at == slide {
            after = Some((vm.stack().len(), *vm.stack().last().unwrap()));
        }
        if status == VMStatus::HALTED {
            break;
        }
    }
    assert_eq!(after, Some((before.unwrap() + 1, 2)));
    assert_eq!(vm.stack(), &vec![12]);
}

#[test]
fn main_returns_any_constant() {
    for k in [0, 1, -1, 9, 1234567890123, i64::MAX, i64::MIN] {
        let body = vec![Box::new(Stmt::Return(Some(Box::new(Expr::Literal(Literal::Number(k))))))];
        let main = Stmt::FunDecl(
            Identifier::new("main".to_string()),
            vec![],
            Box::new(Stmt::Block(body, true)),
        );
        let machine = execute(Stmt::Block(vec![Box::new(main)], false)).unwrap();
        assert_eq!(machine.stack(), &vec![k]);
        assert_eq!(machine.pc(), 5);
        assert_eq!(machine.fp(), 1);
    }
}

#[test]
fn sample_program_runs() {
    let machine = execute(frontend::run(SAMPLE).unwrap()).unwrap();
    assert_eq!(machine.stack(), &vec![3 + 3 + 3 + 4 + 5]);
    assert_eq!(machine.heap(), &vec![0, 4, 0, 0]);
}

#[test]
fn code_survives_the_trip_through_bytes() {
    let program = compile(SAMPLE);
    let bytes = assemble_u8(&program.code);
    assert_eq!(disassemble_u8(&bytes), Some(program.code));
}

#[test]
fn counts_beyond_the_operand_range_are_reported() {
    let mut ctx = AsmCtx::new(MetaData::new());
    ctx.add_fun("GLOBAL", 0);
    ctx.add_fun("f", usize::MAX);
    assert_eq!(dispatch_stmt(&mut ctx, &Stmt::Return(None)), Err(CompileError::LimitExceeded));
}

#[test]
fn a_copy_of_a_program_compiles_to_the_same_code() {
    let program = frontend::run(SAMPLE).unwrap();
    let copy = program.clone();
    let (a, md_a) = middleend::run(program).unwrap();
    let (b, md_b) = middleend::run(copy).unwrap();
    assert_eq!(generate(a, md_a), generate(b, md_b));
}

#[test]
fn compile_reads_and_translates() {
    let program = esta::compile("fun main() { return 9; }").unwrap();
    assert_eq!(program.code.len(), 11);
    assert_eq!(program.code[6], Inst::new_data(ByteCode::LOADC, 9));
    assert_eq!(
        esta::compile("fun main() { return 9 }").err(),
        Some(esta::error::EstaError::Parse)
    );
    let stmts = frontend::run("fun main() { return 9; }").unwrap();
    assert_eq!(translate(stmts), Ok(program.clone()));
    let mut vm = VirtualMachine::new(program);
    assert_eq!(vm.run(), Ok(()));
    assert_eq!(vm.stack(), &vec![9]);
}

#[test]
fn every_alloc_is_a_result_slot_or_the_start_of_a_function() {
    let program = compile(
        "fun f(a) { var x; { var y; } if a { var z; } else { var w; } while 0 { var v; } return a; }
         fun g() { return 1; }
         fun main() { var r; r = f(g()); return r; }",
    );
    let allocs: Vec<(usize, i64)> = program
        .code
        .iter()
        .enumerate()
        .filter(|(_, inst)| inst.inst == ByteCode::ALLOC)
        .map(|(at, inst)| (at, inst.data.unwrap()))
        .collect();
    let starts: Vec<i64> = allocs
        .iter()
        .filter(|(at, _)| *at == 5 || *at > 5 && program.code[at - 1].inst == ByteCode::RET)
        .map(|(_, k)| *k)
        .collect();
    assert_eq!(starts, vec![5, 0, 1]);
    let slots = allocs.iter().filter(|(_, k)| *k == 1).count();
    // The bootstrap, the two calls, and the one local of `main`.
    assert_eq!(slots, 4);
    assert_eq!(allocs.len(), 6);
}

#[test]
fn the_last_declaration_of_a_name_gives_the_count() {
    let program = compile(
        "fun f() { var a; var b; return 1; } fun f() { var c; return 2; } fun main() { return f(); }",
    );
    let starts: Vec<i64> = program
        .code
        .iter()
        .enumerate()
        .filter(|(at, inst)| {
            inst.inst == ByteCode::ALLOC
                && (*at == 5 || *at > 5 && program.code[at - 1].inst == ByteCode::RET)
        })
        .map(|(_, inst)| inst.data.unwrap())
        .collect();
    assert_eq!(starts, vec![1, 1, 0]);
}

#[test]
fn a_program_that_declares_what_it_calls_links() {
    assert!(esta::compile(SAMPLE).is_ok());
    assert!(esta::compile("fun main() { return main(); }").is_ok());
    assert_eq!(
        esta::compile("fun main() { return other(1); }").err(),
        Some(esta::error::EstaError::Compile(CompileError::UnresolvedLabel("other".to_string())))
    );
    assert_eq!(
        esta::compile("fun main() { return a; }").err(),
        Some(esta::error::EstaError::Compile(CompileError::UnknownIdentifier("a".to_string())))
    );
}

#[test]
fn every_call_of_a_program_has_its_call_sequence() {
    let program = compile(SAMPLE);
    let code = &program.code;
    let slides: Vec<usize> =
        (0..code.len()).filter(|at| code[*at].inst == ByteCode::SLIDE).collect();
    // `max(i, 3)`, `Pair()` and `count(5)`.
    let counts: Vec<i64> = slides.iter().map(|at| code[*at].data.unwrap()).collect();
    assert_eq!(counts, vec![2, 0, 1]);
    for at in slides {
        let k = code[at].data.unwrap() as usize;
        assert_eq!(code[at - 1], Inst::new_inst(ByteCode::CALL));
        assert_eq!(code[at - 2].inst, ByteCode::LOADC);
        assert_eq!(code[at - 3], Inst::new_inst(ByteCode::MARK));
        let target = code[at - 2].data.unwrap() as usize;
        assert_eq!(code[target].inst, if k == 0 { ByteCode::LOADC } else { ByteCode::ALLOC });
    }
}

#[test]
fn a_call_with_pure_arguments_adds_one_value() {
    let program =
        compile("fun pick(a, b) { return a; } fun main() { return 1 + pick(2 * 3, 4 - 5); }");
    let slide = program.code.iter().position(|i| i.inst == ByteCode::SLIDE).unwrap();
    assert_eq!(program.code[slide], Inst::new_data(ByteCode::SLIDE, 2));
    // ALLOC 1, two arguments of three instructions each, MARK, LOADC, CALL.
    let first = slide - 10;
    assert_eq!(program.code[first], Inst::new_data(ByteCode::ALLOC, 1));
    let code = program.code.clone();
    let mut vm = VirtualMachine::new(program);
    let mut before = None;
    let mut inside = None;
    let mut after = None;
    for _ in 0..200 {
        let at = vm.pc();
        if at == first {
            before = Some(vm.stack().clone());
        }
        let status = vm.step().unwrap();
        if at == slide - 1 {
            inside = Some(vm.stack().clone());
        }
        if at == slide {
            after = Some(vm.stack().clone());
        }
        assert_eq!(vm.code(), &code);
        if status == VMStatus::HALTED {
            break;
        }
    }
    let before = before.unwrap();
    let inside = inside.unwrap();
    // The result slot, the arguments from the last to the first, the saved
    // frame pointer and the return address.
    assert_eq!(inside.len(), before.len() + 5);
    assert_eq!(&inside[before.len()..before.len() + 3], &[0, -1, 6]);
    assert_eq!(inside[inside.len() - 1], (slide as i64));
    let mut expected = before.clone();
    expected.push(6);
    assert_eq!(after.unwrap(), expected);
    assert_eq!(vm.stack(), &vec![7]);
}
