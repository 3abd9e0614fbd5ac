use std::collections::hash_map::DefaultHasher;
use std::hash::{Hash, Hasher};

use esta::backend::allocation::Alloc;
use esta::backend::allocator::{Allocator, StackInfo};
use esta::backend::assembly_context::AsmCtx;
use esta::backend::{
    binary_bytecode, bootstrap_startup, dispatch_expr, dispatch_stmt, generate, unary_bytecode,
    Assembler,
};
use esta::error::CompileError;
use esta::frontend::ast::{EstaStruct, Expr, Identifier, Literal, Opcode, Stmt};
use esta::middleend;
use esta::middleend::types::TypeCollector;
use esta::middleend::MetaData;
use esta::util::text::{decimal_string, signed_string, unsigned_string};
use esta::util::{bool_to_i64, i64_to_bool, same_text, string_hash32};
use esta::vm::bytecode::{ByteCode, Inst, MetaAsm, MetaInst, MetaVar};
use esta::vm::data::{EstaData, EstaType};
use esta::vm::semantics::VMError;

fn id(name: &str) -> Identifier {
    Identifier::new(name.to_string())
}

fn num(n: i64) -> Box<Expr> {
    Box::new(Expr::Literal(Literal::Number(n)))
}

fn var(name: &str) -> Box<Expr> {
    Box::new(Expr::Id(id(name)))
}

fn block(stmts: Vec<Stmt>, scoped: bool) -> Stmt {
    Stmt::Block(stmts.into_iter().map(Box::new).collect(), scoped)
}

fn structure(name: &str, fields: &[&str]) -> Stmt {
    Stmt::Struct(name.to_string(), fields.iter().map(|f| id(f)).collect())
}

fn op(code: ByteCode) -> MetaAsm {
    MetaAsm::Inst(MetaInst::new_inst(code))
}

fn op_with(code: ByteCode, data: i64) -> MetaAsm {
    MetaAsm::Inst(MetaInst::new_data(code, data))
}

fn op_to(code: ByteCode, label: &str) -> MetaAsm {
    MetaAsm::Inst(MetaInst::new_label(code, label.to_string()))
}

fn op_locals(code: ByteCode, function: &str) -> MetaAsm {
    MetaAsm::Inst(MetaInst::new_local_alloc(code, function.to_string()))
}

fn mark(label: &str) -> MetaAsm {
    MetaAsm::Lbl(label.to_string())
}

fn hash32(name: &str) -> u64 {
    let mut h = DefaultHasher::new();
    name.hash(&mut h);
    h.finish() % (1u64 << 32)
}

#[test]
fn truth_values_are_one_and_zero() {
    assert_eq!(bool_to_i64(true), 1);
    assert_eq!(bool_to_i64(false), 0);
    assert!(i64_to_bool(1));
    assert!(!i64_to_bool(0));
    assert!(!i64_to_bool(2));
    assert!(same_text("ab", "ab"));
    assert!(!same_text("ab", "aB"));
}

#[test]
fn field_hash_is_the_default_hash_in_32_bits() {
    for name in ["", "x", "position", "a longer field name"] {
        let h = string_hash32(name.to_string());
        assert!(h < (1u64 << 32));
        assert_eq!(h, hash32(name));
    }
    assert_ne!(string_hash32("x".to_string()), string_hash32("y".to_string()));
}

#[test]
fn alloc_places_locals_upwards_and_parameters_downwards() {
    let mut level = Alloc::new();
    assert_eq!((level.top(), level.bot()), (0, -3));
    level.define_arg("a");
    level.define_arg("b");
    level.define("x");
    level.define("y");
    assert_eq!(level.get("a"), Some(-3));
    assert_eq!(level.get("b"), Some(-4));
    assert_eq!(level.get("x"), Some(0));
    assert_eq!(level.get("y"), Some(1));
    assert_eq!(level.get("z"), None);
    level.define("x");
    assert_eq!(level.get("x"), Some(2));
    let copy = level.clone();
    assert_eq!(copy.get("x"), Some(2));
    assert_eq!((copy.top(), copy.bot()), (3, -5));
}

#[test]
fn allocator_finds_the_innermost_slot() {
    let nil = Expr::Literal(Literal::Nil);
    let mut allocator = Allocator::new();
    allocator.define("a", &nil);
    allocator.define("b", &nil);
    allocator.push_level();
    allocator.define("a", &nil);
    assert_eq!(allocator.depth(), 2);
    assert_eq!(allocator.lookup("a"), Some(0));
    assert_eq!(allocator.lookup("b"), Some(1));
    assert_eq!(allocator.lookup("c"), None);
    allocator.pop_level();
    assert_eq!(allocator.lookup("a"), Some(0));
    let mut info = StackInfo::new();
    info.define("v", &nil);
    info.define("w", &nil);
    assert_eq!(info.lookup("w"), Some(1));
    assert_eq!(info.lookup("u"), None);
}

fn top_level(md: MetaData) -> AsmCtx {
    let mut ctx = AsmCtx::new(md);
    ctx.add_fun("GLOBAL", 0);
    ctx
}

fn unknown(id: &str) -> Result<i64, CompileError> {
    Err(CompileError::UnknownIdentifier(id.to_string()))
}

#[test]
fn new_context_has_no_frame() {
    let mut ctx = AsmCtx::new(MetaData::new());
    assert_eq!(ctx.base(), "GLOBAL");
    assert_eq!((ctx.args(), ctx.suffix()), (0, 0));
    assert_eq!(ctx.locals_of("GLOBAL"), None);
    assert_eq!(ctx.locals_of("f"), None);
    assert!(!ctx.has_frame() && !ctx.has_level() && !ctx.is_ready());
    assert_eq!(ctx.next_label(), "GLOBAL_0");
    ctx.add_fun("GLOBAL", 0);
    assert!(ctx.has_frame() && ctx.has_level() && ctx.is_ready());
    assert_eq!(ctx.locals_of("GLOBAL"), Some(0));
    assert_eq!(ctx.get("g"), unknown("g"));
}

#[test]
fn context_tracks_scopes_locals_and_labels() {
    let mut ctx = AsmCtx::new(MetaData::new());
    assert_eq!(ctx.next_label(), "GLOBAL_0");
    ctx.add_fun("f", 2);
    assert!(ctx.has_frame() && ctx.has_level() && !ctx.is_ready());
    assert_eq!(ctx.base(), "f");
    assert_eq!(ctx.args(), 2);
    assert_eq!(ctx.next_label(), "f_1");
    assert_eq!(ctx.suffix(), 2);
    ctx.define_arg("a");
    ctx.define_arg("b");
    ctx.define("x");
    assert_eq!(ctx.get("a"), Ok(-3));
    assert_eq!(ctx.get("b"), Ok(-4));
    assert_eq!(ctx.get("x"), Ok(0));
    ctx.push_scope();
    ctx.define("y");
    ctx.define("x");
    assert_eq!(ctx.get("y"), Ok(0));
    assert_eq!(ctx.get("x"), Ok(1));
    assert_eq!(ctx.get("a"), Ok(-3));
    assert_eq!(ctx.locals_of("f"), Some(3));
    ctx.pop_scope();
    assert_eq!(ctx.get("x"), Ok(0));
    assert_eq!(ctx.get("y"), unknown("y"));
    ctx.pop_fun();
    assert_eq!(ctx.base(), "GLOBAL");
    assert!(!ctx.has_frame());
    assert_eq!(ctx.locals_of("f"), Some(3));
    ctx.add_fun("f", 0);
    assert_eq!(ctx.locals_of("f"), Some(0));
    assert_eq!(ctx.get("x"), unknown("x"));
    assert!(ctx.can_label() && ctx.can_define() && ctx.can_define_arg());
}

#[test]
fn names_of_a_closed_scope_are_unknown() {
    let mut ctx = AsmCtx::new(MetaData::new());
    ctx.add_fun("f", 1);
    ctx.define_arg("p");
    ctx.define("a");
    assert_eq!(ctx.get("a"), Ok(0));
    ctx.pop_scope();
    assert!(ctx.has_frame() && !ctx.has_level());
    assert_eq!(ctx.get("a"), unknown("a"));
    assert_eq!(ctx.get("p"), unknown("p"));
    assert_eq!(ctx.locals_of("f"), Some(1));
    ctx.pop_scope();
    assert!(ctx.has_frame() && !ctx.has_level());
    ctx.push_scope();
    assert!(ctx.has_level());
    ctx.define("b");
    assert_eq!(ctx.get("b"), Ok(0));
    assert_eq!(ctx.get("a"), unknown("a"));
    assert_eq!(ctx.locals_of("f"), Some(2));
}

#[test]
fn declaration_without_an_open_scope_is_reported() {
    let mut ctx = top_level(MetaData::new());
    ctx.pop_scope();
    assert_eq!(
        dispatch_stmt(&mut ctx, &Stmt::Declaration(id("a"))),
        Err(CompileError::NoScope)
    );
    let nested = block(
        vec![
            Stmt::FunDecl(
                id("f"),
                vec![],
                Box::new(block(
                    vec![Stmt::FunDecl(id("g"), vec![], Box::new(block(vec![], true)))],
                    true,
                )),
            ),
            Stmt::Declaration(id("a")),
        ],
        false,
    );
    assert_eq!(generate(nested, MetaData::new()).err(), Some(CompileError::NoScope));
}

#[test]
fn decimal_numerals() {
    assert_eq!(decimal_string(0), "0");
    assert_eq!(decimal_string(7), "7");
    assert_eq!(decimal_string(10), "10");
    assert_eq!(decimal_string(9080706), "9080706");
    assert_eq!(decimal_string(usize::MAX), usize::MAX.to_string());
    assert_eq!(unsigned_string(u64::MAX), "18446744073709551615");
    assert_eq!(signed_string(0), "0");
    assert_eq!(signed_string(-1), "-1");
    assert_eq!(signed_string(i64::MIN), "-9223372036854775808");
    assert_eq!(signed_string(i64::MAX), "9223372036854775807");
}

#[test]
fn struct_layout_puts_fields_behind_tag_and_size() {
    let layout = EstaStruct::new(structure("Point", &["x", "y", "z"]));
    assert_eq!(layout.id, "Point");
    assert_eq!(layout.tag, 0);
    assert_eq!(layout.size, 5);
    assert_eq!(
        layout.fields,
        vec![("x".to_string(), 2), ("y".to_string(), 3), ("z".to_string(), 4)]
    );
    let none = EstaStruct::new(Stmt::Return(None));
    assert_eq!((none.id.as_str(), none.tag, none.size, none.fields.len()), ("", 0, 0, 0));
    let copy = layout.clone();
    assert_eq!((copy.id, copy.tag, copy.size, copy.fields), (layout.id, 0, 5, layout.fields));
}

#[test]
fn struct_table_is_tagged_in_the_order_of_the_walk() {
    let program = block(
        vec![
            structure("A", &["a"]),
            Stmt::FunDecl(id("f"), vec![], Box::new(block(vec![structure("B", &[])], true))),
            Stmt::If(
                num(1),
                Box::new(block(vec![structure("C", &["p", "q"])], true)),
                Box::new(block(vec![], true)),
            ),
        ],
        false,
    );
    assert!(TypeCollector::within_limits(&program));
    let structs = TypeCollector::collect_types(&program).unwrap();
    let seen: Vec<(&str, usize, usize)> =
        structs.iter().map(|s| (s.id.as_str(), s.tag, s.size)).collect();
    assert_eq!(seen, vec![("A", 0, 3), ("B", 1, 2), ("C", 2, 4)]);
    let (_, md) = middleend::run(program).unwrap();
    assert_eq!(md.structs.len(), 3);
    assert_eq!(md.clone().structs.len(), 3);
}

#[test]
fn walk_without_a_statement_to_look_into_finds_nothing() {
    assert!(TypeCollector::collect_types(&block(vec![], false)).is_none());
    assert!(TypeCollector::collect_types(&Stmt::Declaration(id("a"))).is_none());
    assert!(TypeCollector::collect_types(&Stmt::Return(None)).is_none());
    assert!(TypeCollector::collect_types(&Stmt::Return(Some(num(1)))).is_none());
    let sum = Box::new(Expr::BinaryOp(num(1), Opcode::Add, num(2)));
    assert_eq!(TypeCollector::collect_types(&Stmt::Return(Some(sum))).map(|v| v.len()), Some(0));
    assert_eq!(
        TypeCollector::collect_types(&block(vec![Stmt::Declaration(id("a"))], false))
            .map(|v| v.len()),
        Some(0)
    );
    assert_eq!(middleend::run(block(vec![], false)).err(), Some(CompileError::NoStructsFound));
}

#[test]
fn data_segment_holds_pointers_and_then_field_blocks() {
    let program = block(
        vec![structure("A", &["x", "y"]), structure("B", &[]), structure("C", &["z"])],
        false,
    );
    let (_, md) = middleend::run(program).unwrap();
    let ctx = AsmCtx::new(md);
    assert_eq!(
        ctx.assemble_data_segment(),
        vec![3, 7, 7, hash32("x"), 2, hash32("y"), 3, hash32("z"), 2]
    );
    assert_eq!(ctx.get_esta_struct("C").map(|s| (s.tag, s.size)), Some((2, 3)));
    assert!(ctx.get_esta_struct("D").is_none());
    assert_eq!(AsmCtx::new(MetaData::new()).assemble_data_segment(), Vec::<u64>::new());
}

#[test]
fn link_gives_labels_their_positions_and_functions_their_locals() {
    let mut ctx = AsmCtx::new(MetaData::new());
    ctx.add_fun("f", 0);
    ctx.define("a");
    ctx.define("b");
    ctx.pop_fun();
    let stream = vec![
        op_to(ByteCode::JUMP, "end"),
        mark("start"),
        op_locals(ByteCode::ALLOC, "f"),
        op_with(ByteCode::LOADC, 5),
        op_to(ByteCode::JUMPZ, "start"),
        mark("end"),
        mark("also_end"),
        op(ByteCode::HALT),
        op_to(ByteCode::LOADC, "also_end"),
    ];
    assert_eq!(
        ctx.link(&stream),
        Ok(vec![
            Inst::new_data(ByteCode::JUMP, 4),
            Inst::new_data(ByteCode::ALLOC, 2),
            Inst::new_data(ByteCode::LOADC, 5),
            Inst::new_data(ByteCode::JUMPZ, 1),
            Inst::new_inst(ByteCode::HALT),
            Inst::new_data(ByteCode::LOADC, 4),
        ])
    );
    let twice = vec![mark("l"), op(ByteCode::NOP), mark("l"), op_to(ByteCode::JUMP, "l")];
    assert_eq!(
        ctx.link(&twice),
        Ok(vec![Inst::new_inst(ByteCode::NOP), Inst::new_data(ByteCode::JUMP, 1)])
    );
}

#[test]
fn link_fails_on_the_first_operand_it_cannot_resolve() {
    let ctx = AsmCtx::new(MetaData::new());
    let stream = vec![
        op(ByteCode::NOP),
        op_locals(ByteCode::ALLOC, "nowhere"),
        op_to(ByteCode::JUMP, "missing"),
    ];
    assert_eq!(ctx.link(&stream), Err(CompileError::MissingLocalAlloc("nowhere".to_string())));
    let stream = vec![op_to(ByteCode::JUMP, "missing"), op_locals(ByteCode::ALLOC, "nowhere")];
    assert_eq!(
        ctx.assemble(&stream).err(),
        Some(CompileError::UnresolvedLabel("missing".to_string()))
    );
    assert_eq!(ctx.link(&vec![]), Ok(vec![]));
}

#[test]
fn operators_map_to_opcodes() {
    assert_eq!(binary_bytecode(Opcode::Add), Some(ByteCode::ADD));
    assert_eq!(binary_bytecode(Opcode::Mod), Some(ByteCode::MOD));
    assert_eq!(binary_bytecode(Opcode::Greater), Some(ByteCode::GE));
    assert_eq!(binary_bytecode(Opcode::GreaterEqual), Some(ByteCode::GEQ));
    assert_eq!(binary_bytecode(Opcode::Lesser), Some(ByteCode::LE));
    assert_eq!(binary_bytecode(Opcode::LesserEqual), Some(ByteCode::LEQ));
    assert_eq!(binary_bytecode(Opcode::BangEqual), Some(ByteCode::NEQ));
    assert_eq!(binary_bytecode(Opcode::Not), None);
    assert_eq!(unary_bytecode(Opcode::Sub), Some(ByteCode::NEG));
    assert_eq!(unary_bytecode(Opcode::Not), Some(ByteCode::NOT));
    assert_eq!(unary_bytecode(Opcode::Add), None);
}

#[test]
fn misplaced_operator_is_rejected() {
    let ctx = top_level(MetaData::new());
    let bad = Expr::BinaryOp(num(1), Opcode::Not, num(2));
    assert_eq!(dispatch_expr(&ctx, &bad, false), Err(CompileError::UnsupportedOperator));
    let bad = Expr::UnaryOp(Opcode::Mul, num(2));
    assert_eq!(dispatch_expr(&ctx, &bad, false), Err(CompileError::UnsupportedOperator));
}

#[test]
fn struct_missing_from_the_table_is_reported() {
    let program = block(vec![structure("Point", &["x"])], false);
    assert_eq!(
        generate(program, MetaData::new()).err(),
        Some(CompileError::StructNotFound("Point".to_string()))
    );
}

#[test]
fn call_pushes_arguments_from_the_last_to_the_first() {
    let mut ctx = top_level(MetaData::new());
    ctx.add_fun("f", 0);
    ctx.define("a");
    let call = Expr::FunCall("g".to_string(), vec![*num(1), *var("a"), *num(3)]);
    assert_eq!(
        dispatch_expr(&ctx, &call, false),
        Ok(vec![
            op_with(ByteCode::ALLOC, 1),
            op_with(ByteCode::LOADC, 3),
            op_with(ByteCode::LOADRC, 0),
            op(ByteCode::LOAD),
            op_with(ByteCode::LOADC, 1),
            op(ByteCode::MARK),
            op_to(ByteCode::LOADC, "g"),
            op(ByteCode::CALL),
            op_with(ByteCode::SLIDE, 3),
        ])
    );
}

#[test]
fn literals_lists_and_members() {
    let ctx = top_level(MetaData::new());
    let t = Expr::Literal(Literal::Boolean(true));
    assert_eq!(dispatch_expr(&ctx, &t, false), Ok(vec![op_with(ByteCode::LOADC, 1)]));
    let f = Expr::Literal(Literal::Boolean(false));
    assert_eq!(dispatch_expr(&ctx, &f, false), Ok(vec![op_with(ByteCode::LOADC, 0)]));
    let nil = Expr::Literal(Literal::Nil);
    assert_eq!(dispatch_expr(&ctx, &nil, false), Ok(vec![op_with(ByteCode::LOADC, 0)]));
    let text = Expr::Literal(Literal::String("s".to_string()));
    assert_eq!(dispatch_expr(&ctx, &text, false), Ok(vec![op_with(ByteCode::LOADC, 0)]));
    let list = Expr::List(vec![num(1)]);
    assert_eq!(dispatch_expr(&ctx, &list, false), Ok(vec![]));
    let member = Expr::Dot(id("a"), var("b"));
    assert_eq!(dispatch_expr(&ctx, &member, false), Ok(vec![]));
}

#[test]
fn statements_emit_their_patterns() {
    let mut ctx = top_level(MetaData::new());
    ctx.add_fun("f", 1);
    ctx.define("a");
    let assign = Stmt::Assignment(var("a"), num(4));
    assert_eq!(
        dispatch_stmt(&mut ctx, &assign),
        Ok(vec![
            op_with(ByteCode::LOADC, 4),
            op_with(ByteCode::LOADRC, 0),
            op(ByteCode::STORE),
            op(ByteCode::POP),
        ])
    );
    assert_eq!(dispatch_stmt(&mut ctx, &Stmt::Return(None)), Ok(vec![op_with(ByteCode::RET, 3)]));
    assert_eq!(dispatch_stmt(&mut ctx, &Stmt::Declaration(id("b"))), Ok(vec![]));
    assert_eq!(ctx.locals_of("f"), Some(2));
    let cond = Stmt::If(
        var("a"),
        Box::new(block(vec![], true)),
        Box::new(block(vec![Stmt::Return(None)], true)),
    );
    assert_eq!(
        dispatch_stmt(&mut ctx, &cond),
        Ok(vec![
            op_with(ByteCode::LOADRC, 0),
            op(ByteCode::LOAD),
            op_to(ByteCode::JUMPZ, "f_0"),
            op_to(ByteCode::JUMP, "f_1"),
            mark("f_0"),
            op_with(ByteCode::RET, 3),
            mark("f_1"),
        ])
    );
    let repeat = Stmt::While(num(0), Box::new(block(vec![], true)));
    assert_eq!(
        dispatch_stmt(&mut ctx, &repeat),
        Ok(vec![
            mark("f_2"),
            op_with(ByteCode::LOADC, 0),
            op_to(ByteCode::JUMPZ, "f_3"),
            op_to(ByteCode::JUMP, "f_2"),
            mark("f_3"),
        ])
    );
}

#[test]
fn struct_constructor_code() {
    let program = block(vec![structure("P", &["x"])], false);
    let (program, md) = middleend::run(program).unwrap();
    let mut ctx = top_level(md);
    let code = dispatch_stmt(&mut ctx, &program).unwrap();
    let header = |value: i64, offset: i64| {
        vec![
            op_with(ByteCode::LOADC, value),
            op_with(ByteCode::LOADRC, 0),
            op(ByteCode::LOAD),
            op_with(ByteCode::LOADC, offset),
            op(ByteCode::ADD),
            op(ByteCode::STOREH),
            op(ByteCode::POP),
        ]
    };
    let mut expected = vec![mark("P"), op_with(ByteCode::LOADC, 3), op(ByteCode::NEW)];
    expected.extend(header(0, 0));
    expected.extend(header(3, 1));
    expected.extend(vec![
        op_with(ByteCode::LOADRC, -3),
        op(ByteCode::STORE),
        op_with(ByteCode::RET, 2),
    ]);
    assert_eq!(code, expected);
    assert_eq!(ctx.base(), "GLOBAL");
}

#[test]
fn bootstrap_calls_main_and_halts() {
    let stream = bootstrap_startup(vec![mark("main"), op_with(ByteCode::RET, 2)]);
    assert_eq!(
        stream,
        vec![
            op_with(ByteCode::ALLOC, 1),
            op(ByteCode::MARK),
            op_to(ByteCode::LOADC, "main"),
            op(ByteCode::CALL),
            op(ByteCode::HALT),
            mark("main"),
            op_with(ByteCode::RET, 2),
        ]
    );
    assert_eq!(MetaInst::new_inst(ByteCode::NOP).var, MetaVar::Empty);
}

#[test]
fn assembler_and_generate_agree() {
    let make = || {
        block(
            vec![Stmt::FunDecl(
                id("main"),
                vec![],
                Box::new(block(vec![Stmt::Return(Some(num(1)))], true)),
            )],
            false,
        )
    };
    let a = Assembler::assemble(&make(), MetaData::new()).unwrap();
    let b = generate(make(), MetaData::new()).unwrap();
    assert_eq!(a, b);
    assert_eq!(a.code.len(), 11);
}

#[test]
fn tagged_values() {
    assert_eq!(EstaData::new_int(4).kind(), EstaType::Num(4));
    assert_eq!(EstaData::new_bool(true).kind(), EstaType::Bool(true));
    assert_eq!(EstaData::default().kind(), EstaType::Nil);
    assert_eq!(EstaType::default(), EstaType::Nil);
    assert_eq!(
        EstaData::new_add(EstaData::new_int(4), EstaData::new_int(5)),
        Ok(EstaData::new_int(9))
    );
    assert_eq!(
        EstaData::new_add(EstaData::new_int(i32::MAX), EstaData::new_int(1)),
        Ok(EstaData::new_int(i32::MIN))
    );
    assert_eq!(
        EstaData::new_add(EstaData::new_int(4), EstaData::new_bool(true)),
        Err(VMError::TypeMismatch)
    );
    assert_eq!(EstaData::new_bool(false).eval_bool(), Ok(false));
    assert_eq!(EstaData::new_int(1).eval_bool(), Err(VMError::TypeMismatch));
    assert_eq!(EstaData::default().eval_bool(), Err(VMError::TypeMismatch));
}
