use esta::backend::assembly_context::AsmCtx;
use esta::backend::program::Program;
use esta::middleend::MetaData;
use esta::vm::bytecode::{ByteCode, Inst, MetaAsm, MetaInst};
use esta::vm::semantics::VMError;
use esta::vm::{VMStatus, VirtualMachine};

fn run_instructions(insts: &Vec<MetaAsm>) -> VirtualMachine {
    let ctx = AsmCtx::new(MetaData::new());
    let prog: Program = ctx.assemble(insts).unwrap();
    run_program(prog)
}

fn run_program(prog: Program) -> VirtualMachine {
    let mut vm = VirtualMachine::new(prog);
    let res = vm.run();
    assert!(res.is_ok());
    vm
}

fn op(code: ByteCode) -> MetaAsm {
    MetaAsm::Inst(MetaInst::new_inst(code))
}

fn op_with(code: ByteCode, data: i64) -> MetaAsm {
    MetaAsm::Inst(MetaInst::new_data(code, data))
}

fn machine(code: Vec<Inst>) -> VirtualMachine {
    VirtualMachine::new(Program { code, data_segment: Vec::new() })
}

#[test]
fn test_vm_halt() {
    let instructions = vec![op(ByteCode::HALT)];

    let vm = run_instructions(&instructions);
    assert_eq!(vm.stack(), &Vec::<i64>::new());
    assert_eq!(vm.pc(), 1);
}

#[test]
fn test_vm_add() {
    let instructions = vec![
        op_with(ByteCode::LOADC, 4),
        op_with(ByteCode::LOADC, 4),
        op(ByteCode::ADD),
        op(ByteCode::HALT),
    ];

    let vm = run_instructions(&instructions);
    assert_eq!(vm.stack(), &vec![8]);
}

#[test]
fn test_vm_loadc() {
    let instructions = vec![op_with(ByteCode::LOADC, 4), op(ByteCode::HALT)];

    let vm = run_instructions(&instructions);
    assert_eq!(vm.stack(), &vec![4]);
}

#[test]
fn test_vm_loadv() {
    let instructions = vec![
        op_with(ByteCode::ALLOC, 1),
        op_with(ByteCode::LOADA, 0),
        op(ByteCode::HALT),
    ];

    let vm = run_instructions(&instructions);
    assert_eq!(vm.stack(), &vec![0, 0]);
}

#[test]
fn test_vm_storev() {
    let instructions = vec![
        op_with(ByteCode::ALLOC, 1),
        op_with(ByteCode::LOADC, 4),
        op_with(ByteCode::LOADC, 0),
        op(ByteCode::STORE),
        op(ByteCode::HALT),
    ];

    let vm = run_instructions(&instructions);
    assert_eq!(vm.stack(), &vec![4, 4]);
}

#[test]
fn test_vm_jump() {
    let instructions = vec![op_with(ByteCode::JUMP, 2), op(ByteCode::NOP), op(ByteCode::HALT)];

    let vm = run_instructions(&instructions);
    assert_eq!(vm.pc(), 3);
}

#[test]
fn test_vm_jumpf() {
    let instructions = vec![
        op_with(ByteCode::LOADC, 0),
        op_with(ByteCode::JUMPZ, 3),
        op_with(ByteCode::LOADC, 7),
        op(ByteCode::HALT),
    ];

    let vm = run_instructions(&instructions);
    assert_eq!(vm.stack(), &Vec::<i64>::new());
}

#[test]
fn test_vm_const() {
    let instructions = vec![op_with(ByteCode::LOADC, 0), op(ByteCode::HALT)];

    let ctx = AsmCtx::new(MetaData::new());
    let prog = ctx.assemble(&instructions).unwrap();

    let vm = run_program(prog);
    assert_eq!(vm.stack(), &vec![0]);
}

#[test]
fn step_reports_running_then_halted() {
    let mut vm = machine(vec![Inst::new_inst(ByteCode::NOP), Inst::new_inst(ByteCode::HALT)]);
    assert_eq!(vm.pc(), 0);
    assert_eq!(vm.fp(), 1);
    assert_eq!(vm.step(), Ok(VMStatus::RUNNING));
    assert_eq!(vm.step(), Ok(VMStatus::HALTED));
    assert_eq!(vm.pc(), 2);
}

#[test]
fn running_off_the_code_is_an_error() {
    let mut vm = machine(vec![Inst::new_inst(ByteCode::NOP)]);
    assert_eq!(vm.run(), Err(VMError::InvalidProgramCounter));
    let mut empty = machine(vec![]);
    assert_eq!(empty.step(), Err(VMError::InvalidProgramCounter));
}

#[test]
fn pop_on_an_empty_stack_underflows() {
    let mut vm = machine(vec![Inst::new_inst(ByteCode::POP)]);
    assert_eq!(vm.step(), Err(VMError::StackUnderflow));
    let mut add = machine(vec![Inst::new_data(ByteCode::LOADC, 1), Inst::new_inst(ByteCode::ADD)]);
    assert_eq!(add.run(), Err(VMError::StackUnderflow));
}

#[test]
fn division_by_zero_aborts() {
    for code in [ByteCode::DIV, ByteCode::MOD] {
        let mut vm = machine(vec![
            Inst::new_data(ByteCode::LOADC, 5),
            Inst::new_data(ByteCode::LOADC, 0),
            Inst::new_inst(code),
            Inst::new_inst(ByteCode::HALT),
        ]);
        assert_eq!(vm.run(), Err(VMError::DivisionByZero));
    }
}

#[test]
fn load_needs_an_address_in_range() {
    let mut vm = machine(vec![Inst::new_data(ByteCode::LOADC, 3), Inst::new_inst(ByteCode::LOAD)]);
    assert_eq!(vm.run(), Err(VMError::AddressOutOfRange));
    let mut negative =
        machine(vec![Inst::new_data(ByteCode::LOADC, -1), Inst::new_inst(ByteCode::LOAD)]);
    assert_eq!(negative.run(), Err(VMError::AddressOutOfRange));
    let mut absolute = machine(vec![Inst::new_data(ByteCode::LOADA, 0)]);
    assert_eq!(absolute.run(), Err(VMError::AddressOutOfRange));
}

#[test]
fn store_extends_the_stack_with_zeros() {
    let mut vm = machine(vec![
        Inst::new_data(ByteCode::LOADC, 6),
        Inst::new_data(ByteCode::LOADC, 4),
        Inst::new_inst(ByteCode::STORE),
        Inst::new_inst(ByteCode::HALT),
    ]);
    assert_eq!(vm.run(), Ok(()));
    assert_eq!(vm.stack(), &vec![6, 0, 0, 0, 6]);
}

#[test]
fn missing_operand_is_rejected() {
    let mut vm = machine(vec![Inst::new_inst(ByteCode::LOADC)]);
    assert_eq!(vm.step(), Err(VMError::InvalidOperand));
    let mut negative = machine(vec![Inst::new_data(ByteCode::ALLOC, -1)]);
    assert_eq!(negative.step(), Err(VMError::InvalidOperand));
}

#[test]
fn subtraction_division_and_remainder_take_the_lower_value_first() {
    let cases = [
        (ByteCode::SUB, 7, 2, 5),
        (ByteCode::DIV, 7, 2, 3),
        (ByteCode::DIV, -7, 2, -3),
        (ByteCode::MOD, 7, 2, 1),
        (ByteCode::MOD, -7, 2, -1),
        (ByteCode::MOD, 7, -2, 1),
        (ByteCode::MUL, -3, 4, -12),
        (ByteCode::ADD, i64::MAX, 1, i64::MIN),
        (ByteCode::DIV, i64::MIN, -1, i64::MIN),
        (ByteCode::MOD, i64::MIN, -1, 0),
    ];
    for (code, lower, upper, expected) in cases {
        let mut vm = machine(vec![
            Inst::new_data(ByteCode::LOADC, lower),
            Inst::new_data(ByteCode::LOADC, upper),
            Inst::new_inst(code),
            Inst::new_inst(ByteCode::HALT),
        ]);
        assert_eq!(vm.run(), Ok(()));
        assert_eq!(vm.stack(), &vec![expected]);
    }
}

#[test]
fn comparisons_compare_the_lower_value_with_the_upper() {
    let cases = [
        (ByteCode::EQ, 3, 3, 1),
        (ByteCode::EQ, 3, 4, 0),
        (ByteCode::NEQ, 3, 4, 1),
        (ByteCode::LE, 3, 4, 1),
        (ByteCode::LE, 4, 3, 0),
        (ByteCode::LE, 3, 3, 0),
        (ByteCode::LEQ, 3, 3, 1),
        (ByteCode::GE, 4, 3, 1),
        (ByteCode::GE, 3, 4, 0),
        (ByteCode::GEQ, 3, 3, 1),
        (ByteCode::GEQ, 2, 3, 0),
        (ByteCode::AND, 1, 1, 1),
        (ByteCode::AND, 1, 0, 0),
        (ByteCode::OR, 0, 1, 1),
        (ByteCode::OR, 0, 0, 0),
    ];
    for (code, lower, upper, expected) in cases {
        let mut vm = machine(vec![
            Inst::new_data(ByteCode::LOADC, lower),
            Inst::new_data(ByteCode::LOADC, upper),
            Inst::new_inst(code),
            Inst::new_inst(ByteCode::HALT),
        ]);
        assert_eq!(vm.run(), Ok(()));
        assert_eq!(vm.stack(), &vec![expected]);
    }
}

#[test]
fn negation_and_logical_not() {
    let mut vm = machine(vec![
        Inst::new_data(ByteCode::LOADC, 5),
        Inst::new_inst(ByteCode::NEG),
        Inst::new_data(ByteCode::LOADC, 0),
        Inst::new_inst(ByteCode::NOT),
        Inst::new_data(ByteCode::LOADC, 1),
        Inst::new_inst(ByteCode::NOT),
        Inst::new_inst(ByteCode::HALT),
    ]);
    assert_eq!(vm.run(), Ok(()));
    assert_eq!(vm.stack(), &vec![-5, 1, 0]);
}

#[test]
fn new_allocates_zeroed_heap_cells_and_storeh_writes_them() {
    let mut vm = machine(vec![
        Inst::new_data(ByteCode::LOADC, 3),
        Inst::new_inst(ByteCode::NEW),
        Inst::new_data(ByteCode::LOADC, 2),
        Inst::new_inst(ByteCode::NEW),
        Inst::new_data(ByteCode::LOADC, 42),
        Inst::new_data(ByteCode::LOADC, 4),
        Inst::new_inst(ByteCode::STOREH),
        Inst::new_inst(ByteCode::HALT),
    ]);
    assert_eq!(vm.run(), Ok(()));
    assert_eq!(vm.stack(), &vec![0, 3, 42]);
    assert_eq!(vm.heap(), &vec![0, 0, 0, 0, 42]);
    let mut negative =
        machine(vec![Inst::new_data(ByteCode::LOADC, -1), Inst::new_inst(ByteCode::NEW)]);
    assert_eq!(negative.run(), Err(VMError::HeapOverflow));
}

#[test]
fn slide_keeps_the_top_over_the_removed_cells() {
    let mut vm = machine(vec![
        Inst::new_data(ByteCode::LOADC, 1),
        Inst::new_data(ByteCode::LOADC, 2),
        Inst::new_data(ByteCode::LOADC, 3),
        Inst::new_data(ByteCode::LOADC, 4),
        Inst::new_data(ByteCode::SLIDE, 2),
        Inst::new_inst(ByteCode::HALT),
    ]);
    assert_eq!(vm.run(), Ok(()));
    assert_eq!(vm.stack(), &vec![1, 4]);
}

#[test]
fn bounded_run_stops_when_the_budget_is_spent() {
    let mut vm = machine(vec![Inst::new_data(ByteCode::JUMP, 0)]);
    assert_eq!(vm.run_bounded(50), Ok(VMStatus::RUNNING));
    assert_eq!(vm.pc(), 0);
}

#[test]
fn code_and_data_segment_survive_every_step() {
    let code = vec![
        Inst::new_data(ByteCode::LOADC, 1),
        Inst::new_inst(ByteCode::POP),
        Inst::new_inst(ByteCode::POP),
        Inst::new_inst(ByteCode::HALT),
    ];
    let data_segment = vec![1, 2, 3];
    let mut vm = VirtualMachine::new(Program { code: code.clone(), data_segment: data_segment.clone() });
    assert_eq!(vm.step(), Ok(VMStatus::RUNNING));
    assert_eq!(vm.step(), Ok(VMStatus::RUNNING));
    assert_eq!(vm.step(), Err(VMError::StackUnderflow));
    assert_eq!(vm.code(), &code);
    assert_eq!(vm.data_segment(), &data_segment);
    let mut other = VirtualMachine::new(Program { code: code.clone(), data_segment: data_segment.clone() });
    assert_eq!(other.run(), Err(VMError::StackUnderflow));
    assert_eq!(other.code(), &code);
    assert_eq!(other.data_segment(), &data_segment);
}

#[test]
fn errors_and_instructions_have_texts() {
    assert_eq!(VMError::StackUnderflow.message(), "Stack underflow");
    assert_eq!(VMError::DivisionByZero.message(), "Division by zero");
    assert_eq!(VMError::TypeMismatch.message(), "Incompatible Types");
    assert_eq!(Inst::new_data(ByteCode::LOADRC, -3).listing(), "LOADRC -3");
    assert_eq!(Inst::new_inst(ByteCode::HALT).listing(), "HALT");
}
