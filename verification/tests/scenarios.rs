use esta::backend::generate;
use esta::backend::dispatch_expr;
use esta::backend::assembly_context::AsmCtx;
use esta::backend::program::Program;
use esta::error::CompileError;
use esta::frontend::ast::{Expr, Identifier, Literal, Opcode, Stmt};
use esta::middleend;
use esta::middleend::MetaData;
use esta::vm::bytecode::{ByteCode, Inst};
use esta::vm::{VMStatus, VirtualMachine};

fn id(name: &str) -> Identifier {
    Identifier::new(name.to_string())
}

fn num(n: i64) -> Box<Expr> {
    Box::new(Expr::Literal(Literal::Number(n)))
}

fn var(name: &str) -> Box<Expr> {
    Box::new(Expr::Id(id(name)))
}

fn block(stmts: Vec<Stmt>) -> Box<Stmt> {
    Box::new(Stmt::Block(stmts.into_iter().map(Box::new).collect(), true))
}

fn fun(name: &str, params: &[&str], body: Vec<Stmt>) -> Stmt {
    Stmt::FunDecl(id(name), params.iter().map(|p| id(p)).collect(), block(body))
}

fn program(stmts: Vec<Stmt>) -> Stmt {
    Stmt::Block(stmts.into_iter().map(Box::new).collect(), false)
}

fn compile(stmts: Stmt) -> Program {
    let (stmts, md) = middleend::run(stmts).unwrap();
    generate(stmts, md).unwrap()
}

fn run_to_halt(prog: Program) -> VirtualMachine {
    let mut vm = VirtualMachine::new(prog);
    assert_eq!(vm.run_bounded(100_000), Ok(VMStatus::HALTED));
    vm
}

#[test]
fn constant_return_code_and_result() {
    let prog = compile(program(vec![fun("main", &[], vec![Stmt::Return(Some(num(9)))])]));
    let expected = vec![
        Inst::new_data(ByteCode::ALLOC, 1),
        Inst::new_inst(ByteCode::MARK),
        Inst::new_data(ByteCode::LOADC, 5),
        Inst::new_inst(ByteCode::CALL),
        Inst::new_inst(ByteCode::HALT),
        Inst::new_data(ByteCode::ALLOC, 0),
        Inst::new_data(ByteCode::LOADC, 9),
        Inst::new_data(ByteCode::LOADRC, -3),
        Inst::new_inst(ByteCode::STORE),
        Inst::new_data(ByteCode::RET, 2),
        Inst::new_data(ByteCode::RET, 2),
    ];
    assert_eq!(prog.code, expected);
    assert_eq!(prog.data_segment, Vec::<u64>::new());
    let vm = run_to_halt(prog);
    assert_eq!(vm.stack(), &vec![9]);
}

#[test]
fn local_then_return() {
    let prog = compile(program(vec![fun(
        "main",
        &[],
        vec![
            Stmt::Declaration(id("a")),
            Stmt::Assignment(var("a"), num(9)),
            Stmt::Return(Some(var("a"))),
        ],
    )]));
    assert_eq!(prog.code[5], Inst::new_data(ByteCode::ALLOC, 1));
    let vm = run_to_halt(prog);
    assert_eq!(vm.stack(), &vec![9]);
}

#[test]
fn conditional_takes_the_alternative_on_zero() {
    let prog = compile(program(vec![fun(
        "main",
        &[],
        vec![Stmt::If(
            num(0),
            block(vec![Stmt::Return(Some(num(1)))]),
            block(vec![Stmt::Return(Some(num(2)))]),
        )],
    )]));
    let vm = run_to_halt(prog);
    assert_eq!(vm.stack(), &vec![2]);
}

#[test]
fn while_loop_counts_to_five() {
    let prog = compile(program(vec![fun(
        "main",
        &[],
        vec![
            Stmt::Declaration(id("i")),
            Stmt::Assignment(var("i"), num(0)),
            Stmt::While(
                Box::new(Expr::BinaryOp(var("i"), Opcode::BangEqual, num(5))),
                block(vec![Stmt::Assignment(
                    var("i"),
                    Box::new(Expr::BinaryOp(var("i"), Opcode::Add, num(1))),
                )]),
            ),
            Stmt::Return(Some(var("i"))),
        ],
    )]));
    let vm = run_to_halt(prog);
    assert_eq!(vm.stack(), &vec![5]);
}

#[test]
fn function_call_with_arguments() {
    let prog = compile(program(vec![
        fun(
            "add",
            &["a", "b"],
            vec![Stmt::Return(Some(Box::new(Expr::BinaryOp(var("a"), Opcode::Add, var("b")))))],
        ),
        fun(
            "main",
            &[],
            vec![Stmt::Return(Some(Box::new(Expr::FunCall(
                "add".to_string(),
                vec![*num(3), *num(4)],
            ))))],
        ),
    ]));
    let vm = run_to_halt(prog);
    assert_eq!(vm.stack(), &vec![7]);
}

#[test]
fn arithmetic_expression_leaves_its_value() {
    let e = Expr::BinaryOp(
        num(2),
        Opcode::Add,
        Box::new(Expr::BinaryOp(num(3), Opcode::Mul, num(4))),
    );
    let mut ctx = AsmCtx::new(MetaData::new());
    ctx.add_fun("GLOBAL", 0);
    let stream = dispatch_expr(&ctx, &e, false).unwrap();
    let mut code = ctx.link(&stream).unwrap();
    assert_eq!(
        code,
        vec![
            Inst::new_data(ByteCode::LOADC, 2),
            Inst::new_data(ByteCode::LOADC, 3),
            Inst::new_data(ByteCode::LOADC, 4),
            Inst::new_inst(ByteCode::MUL),
            Inst::new_inst(ByteCode::ADD),
        ]
    );
    code.push(Inst::new_inst(ByteCode::HALT));
    let vm = run_to_halt(Program { code, data_segment: Vec::new() });
    assert_eq!(vm.stack(), &vec![14]);
}

#[test]
fn unknown_identifier_is_named() {
    let (stmts, md) = middleend::run(program(vec![fun(
        "main",
        &[],
        vec![Stmt::Return(Some(var("ghost")))],
    )]))
    .unwrap();
    assert_eq!(generate(stmts, md), Err(CompileError::UnknownIdentifier("ghost".to_string())));
}
